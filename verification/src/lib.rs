//! Verified core of a microphone capture pipeline: classification of device
//! errors, framing of captured audio for a voice-activity detector, the
//! recording and speech-segment bookkeeping, the pause handshake between the
//! audio callback and the consumer, and the consumer's command protocol.

pub mod errors;
pub mod vad;
pub mod capture;
pub mod transport;
pub mod consumer;
pub mod session;
