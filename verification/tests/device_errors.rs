use recorder::errors::{is_microphone_access_denied, is_no_input_device_error};

#[test]
fn detects_access_is_denied() {
    assert!(is_microphone_access_denied("Access is denied"));
}

#[test]
fn detects_permission_denied() {
    assert!(is_microphone_access_denied("permission denied"));
}

#[test]
fn detects_windows_error_code() {
    assert!(is_microphone_access_denied("WASAPI error: 0x80070005"));
}

#[test]
fn does_not_match_unrelated_errors() {
    assert!(!is_microphone_access_denied("device not found"));
}

#[test]
fn detects_no_input_device() {
    assert!(is_no_input_device_error("No input device found"));
}

#[test]
fn detects_coreaudio_config_error() {
    assert!(is_no_input_device_error(
        "Failed to fetch preferred config: A backend-specific error has occurred: An unknown error unknown to the coreaudio-rs API occurred"
    ));
}

#[test]
fn does_not_match_other_errors_for_no_device() {
    assert!(!is_no_input_device_error("permission denied"));
    assert!(!is_no_input_device_error("device not found"));
}

#[test]
fn access_denied_matching_ignores_ascii_case_anywhere_in_the_message() {
    assert!(is_microphone_access_denied("Stream error: PERMISSION DENIED by the system"));
    assert!(is_microphone_access_denied("HRESULT 0X80070005"));
    assert!(!is_microphone_access_denied("access denied"));
    assert!(!is_microphone_access_denied(""));
}

#[test]
fn config_failure_without_coreaudio_is_not_a_missing_device() {
    assert!(!is_no_input_device_error("Failed to fetch preferred config: ALSA function failed"));
    assert!(is_no_input_device_error("no INPUT device available"));
}
