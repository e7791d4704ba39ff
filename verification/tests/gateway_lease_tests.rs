use relay_gateway::gateway_lease::{
    after_probe, check_borrowed_instance, LeaseShutdown, ProbeNext, RecoveryState,
};

#[test]
fn recovery_tracks_gateway_instances_instead_of_the_local_starter() {
    let mut recovery = RecoveryState::new("first".into());

    recovery.observe("first".into()).unwrap();
    recovery.require_restart().unwrap();
    recovery.observe("second".into()).unwrap();
    assert_eq!(recovery.instance_id(), "second");
    assert!(recovery.require_restart().is_err());
}

#[test]
fn observing_two_replacements_exhausts_the_single_restart_allowance() {
    let mut recovery = RecoveryState::new("first".into());
    recovery.observe("second".into()).unwrap();

    let error = recovery.observe("third".into()).unwrap_err();

    assert!(error.message().contains("replaced again"));
}

#[test]
fn a_refused_replacement_leaves_the_followed_instance_unchanged() {
    let mut recovery = RecoveryState::new("first".into());
    recovery.observe("second".into()).unwrap();
    assert!(recovery.observe("third".into()).is_err());
    assert_eq!(recovery.instance_id(), "second");
    recovery.observe("second".into()).unwrap();
    assert_eq!(
        recovery.require_restart().unwrap_err().message(),
        "shared Relay gateway became unhealthy after its coordinated restart"
    );
}

#[test]
fn unhealthy_probes_are_confirmed_three_times_before_a_restart() {
    assert!(matches!(after_probe(0, None), ProbeNext::Retry));
    assert!(matches!(after_probe(1, None), ProbeNext::Retry));
    assert!(matches!(after_probe(2, None), ProbeNext::Restart));
    match after_probe(2, Some("gw".to_string())) {
        ProbeNext::Accept(id) => assert_eq!(id, "gw"),
        _ => panic!("a reported instance must be accepted"),
    }
}

#[test]
fn shutdown_refuses_new_recoveries_and_tracks_running_ones() {
    let mut shutdown = LeaseShutdown::new();
    shutdown.start_recovery().unwrap();
    assert!(!shutdown.recoveries_settled());
    shutdown.stop();
    assert_eq!(
        shutdown.start_recovery().unwrap_err().message(),
        "gateway lease is shutting down"
    );
    shutdown.finish_recovery();
    assert!(shutdown.recoveries_settled());
    shutdown.finish_recovery();
    assert!(shutdown.recoveries_settled());
}

#[test]
fn borrowed_leases_fail_when_the_gateway_changes_or_disappears() {
    assert!(check_borrowed_instance("a", Some("a".to_string()), "http://gw").is_ok());
    assert_eq!(
        check_borrowed_instance("a", Some("b".to_string()), "http://gw")
            .unwrap_err()
            .message(),
        "transparent Relay gateway instance changed from a to b"
    );
    assert_eq!(
        check_borrowed_instance("a", None, "http://gw").unwrap_err().message(),
        "transparent Relay gateway at http://gw is no longer available"
    );
}
