use fishtank::control::{
    resize_accepted, surface_failure_response, window_event_action, LoopAction, State,
    SurfaceFailure, SurfaceResponse, WindowInput, FRAME_INTERVAL_NANOS,
};
use fishtank::instances::{instance_update, InstanceUpdate};

#[test]
fn frames_are_limited_to_sixty_a_second() {
    let mut state = State::new(vec![1u8, 2, 3]);
    assert_eq!(state.frame(), 0);
    assert_eq!(state.last_frame_start(), 0);
    state.start_clock(1_000_000_000);
    assert_eq!(state.last_frame_start(), 1_000_000_000);
    assert!(!state.begin_frame(1_016_666_666, 1_016_666_700));
    assert_eq!(state.frame(), 0);
    assert_eq!(state.last_frame_start(), 1_000_000_000);
    assert!(state.begin_frame(1_016_666_667, 1_016_666_700));
    assert_eq!(state.frame(), 1);
    // the frame starts at the reading taken after the check
    assert_eq!(state.last_frame_start(), 1_016_666_700);
    // measured from the frame just begun, not from the clock's start
    assert!(!state.begin_frame(1_033_333_366, 1_033_333_400));
    assert_eq!(state.frame(), 1);
    assert!(state.begin_frame(1_033_333_367, 1_033_333_400));
    assert_eq!(state.frame(), 2);
    assert!(state.begin_frame(1_033_333_400 + FRAME_INTERVAL_NANOS * 10, 1_200_000_000));
    assert_eq!(state.frame(), 3);
    state.world_mut().push(4);
    assert_eq!(state.world(), &vec![1, 2, 3, 4]);
}

#[test]
fn frames_begun_never_outnumber_elapsed_intervals() {
    let mut state = State::new(());
    state.start_clock(0);
    let mut now: u128 = 0;
    for step in 0..10_000u128 {
        now += 1_000_000 + (step % 7) * 3_000_000;
        let start = now + (step % 3) * 1_000;
        state.begin_frame(now, start);
        now = start;
        assert!(state.frame() as u128 * FRAME_INTERVAL_NANOS <= now);
    }
    assert!(state.frame() > 0);
}

#[test]
fn window_events_map_to_actions() {
    assert!(window_event_action(WindowInput::CloseRequested, false) == LoopAction::Exit);
    assert!(window_event_action(WindowInput::EscapePressed, false) == LoopAction::Exit);
    assert!(
        window_event_action(WindowInput::Resized { width: 640, height: 480 }, false)
            == LoopAction::Resize { width: 640, height: 480 }
    );
    assert!(window_event_action(WindowInput::RedrawRequested, false) == LoopAction::Redraw);
    assert!(window_event_action(WindowInput::Other, false) == LoopAction::Continue);
    assert!(window_event_action(WindowInput::CloseRequested, true) == LoopAction::Continue);
}

#[test]
fn surface_failures_map_to_responses() {
    assert!(surface_failure_response(SurfaceFailure::Lost) == SurfaceResponse::Reconfigure);
    assert!(surface_failure_response(SurfaceFailure::Outdated) == SurfaceResponse::Reconfigure);
    assert!(surface_failure_response(SurfaceFailure::OutOfMemory) == SurfaceResponse::Exit);
    assert!(surface_failure_response(SurfaceFailure::Timeout) == SurfaceResponse::Warn);
    assert!(surface_failure_response(SurfaceFailure::Other) == SurfaceResponse::Warn);
}

#[test]
fn zero_sized_windows_are_not_rendered_to() {
    assert!(resize_accepted(800, 600));
    assert!(!resize_accepted(0, 600));
    assert!(!resize_accepted(800, 0));
    assert!(!resize_accepted(0, 0));
}

#[test]
fn instance_buffer_follows_instance_count() {
    assert!(instance_update(0, 5) == InstanceUpdate::Skip);
    assert!(instance_update(3, 0) == InstanceUpdate::Recreate(3));
    assert!(instance_update(3, 3) == InstanceUpdate::Overwrite);
    assert!(instance_update(2, 3) == InstanceUpdate::Recreate(2));
}

#[test]
fn recreated_instance_buffer_is_then_overwritten() {
    let mut buffer_instances = 0u32;
    for count in [4usize, 4, 7, 7, 7] {
        match instance_update(count, buffer_instances) {
            InstanceUpdate::Recreate(n) => buffer_instances = n,
            InstanceUpdate::Overwrite => assert_eq!(buffer_instances as usize, count),
            InstanceUpdate::Skip => panic!("instances were present"),
        }
        assert_eq!(buffer_instances as usize, count);
        assert!(instance_update(count, buffer_instances) == InstanceUpdate::Overwrite);
    }
}
