use gateway::publication::PublicationController;

#[test]
fn a_committed_generation_replaces_the_current_one() {
    let mut controller = PublicationController::bootstrap();
    assert_eq!(controller.try_capture(), Some(0));
    let next = controller.prepare();
    assert_eq!(next, 1);
    // A prepared generation serves nothing until it is committed.
    assert_eq!(controller.try_capture(), Some(0));
    controller.commit(next);
    assert_eq!(controller.try_capture(), Some(1));
    assert!(controller.accepting_requests());
}

#[test]
fn a_failed_reapplication_closes_admission() {
    let mut controller = PublicationController::bootstrap();
    controller.begin_apply();
    assert!(!controller.accepting_requests());
    assert_eq!(controller.try_capture(), None);
    assert_eq!(controller.capture(), 0);
    let rebuilt = controller.prepare();
    controller.commit(rebuilt);
    assert_eq!(controller.try_capture(), Some(rebuilt));
}
