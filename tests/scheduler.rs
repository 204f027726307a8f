use torimies::scheduler::{on_start_failure, request_shutdown, State, TickAction, UpdateLoop};

#[test]
fn running_state_updates_and_shutdown_stops() {
    let mut l = UpdateLoop::new();
    assert_eq!(l.on_tick(Some(State::Running)), TickAction::Update);
    assert_eq!(l.on_tick(Some(State::Shutdown)), TickAction::Stop);
}

#[test]
fn repeated_read_failures_assume_shutdown() {
    let mut l = UpdateLoop::new();
    assert_eq!(l.on_tick(None), TickAction::Update);
    assert_eq!(l.on_tick(None), TickAction::Update);
    assert_eq!(l.on_tick(None), TickAction::Stop);
}

#[test]
fn successful_read_resets_failures() {
    let mut l = UpdateLoop::new();
    l.on_tick(None);
    l.on_tick(None);
    assert_eq!(l.on_tick(Some(State::Running)), TickAction::Update);
    assert_eq!(l.failures, 0);
    assert_eq!(l.on_tick(None), TickAction::Update);
}

#[test]
fn shutdown_request_sets_shutdown() {
    let mut s = State::Running;
    request_shutdown(&mut s);
    assert_eq!(s, State::Shutdown);
}

#[test]
fn third_start_failure_gives_up() {
    let mut f = 0;
    assert!(!on_start_failure(&mut f));
    assert!(!on_start_failure(&mut f));
    assert!(on_start_failure(&mut f));
}
