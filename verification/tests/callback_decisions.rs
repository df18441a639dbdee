use recorder::transport::{
    callback_action, channel_plan, drain_limit, overrun_count, plan_callback, plan_ring_write, select_channel, CallbackAction,
    ChannelPlan,
};

#[test]
fn pause_forwards_the_boundary_block_then_drops() {
    assert!(matches!(callback_action(false, false), CallbackAction::Forward));
    assert!(matches!(callback_action(true, false), CallbackAction::ForwardAndAcknowledge));
    assert!(matches!(callback_action(true, true), CallbackAction::Drop));
    assert!(matches!(callback_action(false, true), CallbackAction::Forward));
}

#[test]
fn partial_ring_write_counts_the_dropped_samples() {
    let w = plan_ring_write(3, 2);
    assert_eq!((w.written, w.dropped), (2, 1));
    let w = plan_ring_write(3, 8);
    assert_eq!((w.written, w.dropped), (3, 0));
    let w = plan_ring_write(4, 0);
    assert_eq!((w.written, w.dropped), (0, 4));
}

#[test]
fn channel_plan_follows_the_channel_count_and_selection() {
    assert!(matches!(channel_plan(1, None), ChannelPlan::PassThrough));
    assert!(matches!(channel_plan(1, Some(3)), ChannelPlan::PassThrough));
    assert!(matches!(channel_plan(2, None), ChannelPlan::Average));
    assert!(matches!(channel_plan(2, Some(1)), ChannelPlan::Select(1)));
    assert!(matches!(channel_plan(2, Some(2)), ChannelPlan::Average));
}

#[test]
fn selecting_a_channel_keeps_its_samples_in_order() {
    assert_eq!(select_channel(&[1.0f32, 3.0, -1.0, 1.0], 2, 1), vec![3.0, 1.0]);
    assert_eq!(select_channel(&[1.0f32, 3.0, -1.0, 1.0], 2, 0), vec![1.0, -1.0]);
    assert_eq!(select_channel(&[1u8, 2, 3, 4, 5, 6, 7], 3, 2), vec![3, 6]);
    assert!(select_channel(&[1u8], 2, 0).is_empty());
}

#[test]
fn a_failed_write_counts_the_whole_block_as_overrun() {
    let w = plan_ring_write(3, 2);
    assert_eq!(overrun_count(&w, true), 1);
    assert_eq!(overrun_count(&w, false), 3);
}

#[test]
fn bounded_drain_takes_at_most_the_cycle_budget() {
    assert_eq!(drain_limit(5, 3), 3);
    assert_eq!(drain_limit(2, 3), 2);
    assert_eq!(drain_limit(0, 3), 0);
}

#[test]
fn paused_blocks_are_dropped_without_counting_overruns() {
    let plan = plan_callback(true, true, 5, 0);
    assert!(!plan.forward && !plan.acknowledge);
    assert_eq!((plan.write.written, plan.write.dropped), (0, 0));
    assert_eq!(overrun_count(&plan.write, true), 0);

    let boundary = plan_callback(true, false, 3, 2);
    assert!(boundary.forward && boundary.acknowledge);
    assert_eq!((boundary.write.written, boundary.write.dropped), (2, 1));

    let running = plan_callback(false, false, 2, 8);
    assert!(running.forward && !running.acknowledge);
    assert_eq!((running.write.written, running.write.dropped), (2, 0));
}
