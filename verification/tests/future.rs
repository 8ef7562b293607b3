use swiftlight_compiler::middleend::concurrent::future::{FutureMap, FutureState};

#[test]
fn futures_are_numbered_from_one() {
    let mut m = FutureMap::new();
    assert_eq!(m.create_future(10), 1);
    assert_eq!(m.create_future(11), 2);
    assert_eq!(m.get_future_state(1), Ok(FutureState::Pending));
    assert_eq!(m.get_future_result(2), Ok(None));
}

#[test]
fn missing_future_is_reported() {
    let m = FutureMap::new();
    assert_eq!(m.get_future_state(5), Err("Future ID 5 が見つかりません".to_string()));
    assert_eq!(m.wait_for_completion(12), Err("Future ID 12 が見つかりません".to_string()));
    assert_eq!(m.completion_step(12), Err("Future ID 12 が見つかりません".to_string()));
}

#[test]
fn result_is_read_back() {
    let mut m = FutureMap::new();
    let id = m.create_future(1);
    assert!(m.set_future_result(id, 42).is_ok());
    assert_eq!(m.get_future_state(id), Ok(FutureState::Completed));
    assert_eq!(m.get_future_result(id), Ok(Some(42)));
}

#[test]
fn error_marks_failed() {
    let mut m = FutureMap::new();
    let id = m.create_future(1);
    assert!(m.set_future_error(id, 9).is_ok());
    assert_eq!(m.get_future_state(id), Ok(FutureState::Failed));
    assert_eq!(m.set_future_error(3, 9), Err("Future ID 3 が見つかりません".to_string()));
}

#[test]
fn state_updates() {
    let mut m = FutureMap::new();
    let id = m.create_future(1);
    assert!(m.update_future_state(id, FutureState::Running).is_ok());
    assert_eq!(m.completion_step(id), Ok(None));
    assert_eq!(m.wait_for_completion(id), Ok(FutureState::Running));
    assert!(m.update_future_state(id, FutureState::TimedOut).is_ok());
    assert_eq!(m.completion_step(id), Ok(Some(FutureState::TimedOut)));
    assert_eq!(m.wait_for_completion(id), Ok(FutureState::TimedOut));
}

#[test]
fn dependency_errors_name_the_missing_future() {
    let mut m = FutureMap::new();
    let a = m.create_future(1);
    assert_eq!(m.add_dependency(7, a), Err("親Future ID 7 が見つかりません".to_string()));
    assert_eq!(m.add_dependency(a, 8), Err("子Future ID 8 が見つかりません".to_string()));
}

#[test]
fn cancelling_reaches_children() {
    let mut m = FutureMap::new();
    let a = m.create_future(1);
    let b = m.create_future(1);
    let c = m.create_future(1);
    let d = m.create_future(1);
    assert!(m.add_dependency(a, b).is_ok());
    assert!(m.add_dependency(b, c).is_ok());
    assert!(m.cancel_future(a).is_ok());
    assert_eq!(m.get_future_state(a), Ok(FutureState::Cancelled));
    assert_eq!(m.get_future_state(b), Ok(FutureState::Cancelled));
    assert_eq!(m.get_future_state(c), Ok(FutureState::Cancelled));
    assert_eq!(m.get_future_state(d), Ok(FutureState::Pending));
}

#[test]
fn cancelling_a_cycle_ends() {
    let mut m = FutureMap::new();
    let a = m.create_future(1);
    let b = m.create_future(1);
    assert!(m.add_dependency(a, b).is_ok());
    assert!(m.add_dependency(b, a).is_ok());
    assert!(m.cancel_future(b).is_ok());
    assert_eq!(m.get_future_state(a), Ok(FutureState::Cancelled));
    assert_eq!(m.cancel_future(9), Err("Future ID 9 が見つかりません".to_string()));
}
