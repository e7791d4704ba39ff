use relay_gateway::bounded::{bounded_read_step, check_bounded_metadata};
use relay_gateway::launch::{
    atomic_temp_file_name, combine_cleanup_results, fresh_atomic_temp_file_name, insert_after_host,
    supervision_failure_message, PreparedAgentLaunch,
};
use relay_gateway::operation_lock::{
    lock_wait_step, normalize_lock_attempt, operation_lock_file_name, retry_delay_millis, LockAttempt, LockError, LockWait,
};

#[test]
fn lock_attempts_distinguish_contention_from_failure() {
    assert!(matches!(normalize_lock_attempt(Ok(()), false), Ok(LockAttempt::Acquired)));
    assert!(matches!(normalize_lock_attempt(Err(LockError::WouldBlock), false), Ok(LockAttempt::Contended)));
    assert!(matches!(normalize_lock_attempt(Err(LockError::LockViolation), true), Ok(LockAttempt::Contended)));
    assert!(matches!(normalize_lock_attempt(Err(LockError::LockViolation), false), Err(LockError::LockViolation)));
    assert!(matches!(normalize_lock_attempt(Err(LockError::Other("x".to_string())), true), Err(LockError::Other(_))));
}

#[test]
fn contended_operation_locks_are_retried_until_the_deadline() {
    assert_eq!(operation_lock_file_name("codex"), ".nemo-relay-codex-operation.lock");
    assert!(matches!(lock_wait_step(Ok(LockAttempt::Acquired), true, "k", "global", "/d", "/d/l"), LockWait::Locked));
    assert!(matches!(lock_wait_step(Ok(LockAttempt::Contended), false, "k", "global", "/d", "/d/l"), LockWait::Retry));
    match lock_wait_step(Ok(LockAttempt::Contended), true, "codex", "install-root", "/d", "/d/l") {
        LockWait::Failed(m) => assert_eq!(m, "timed out waiting for another codex plugin install or uninstall operation on the install-root lock at /d; wait for it to finish and retry"),
        _ => panic!("expected a timeout"),
    }
    match lock_wait_step(Err("denied".to_string()), false, "k", "global", "/d", "/d/l") {
        LockWait::Failed(m) => assert_eq!(m, "failed to lock plugin operation /d/l: denied"),
        _ => panic!("expected a failure"),
    }
    assert_eq!(retry_delay_millis(100), 25);
    assert_eq!(retry_delay_millis(7), 7);
}

#[test]
fn bounded_reads_check_metadata_and_running_totals() {
    assert!(check_bounded_metadata("plugin artifact", "/a", true, 10).is_ok());
    assert_eq!(check_bounded_metadata("plugin artifact", "/a", false, 10).unwrap_err(), "plugin artifact /a must be a regular file");
    assert_eq!(
        check_bounded_metadata("plugin artifact", "/a", true, 536870913).unwrap_err(),
        "plugin artifact /a exceeds the 536870912-byte limit"
    );
    assert_eq!(bounded_read_step(5, 0, "f", "/a"), Ok(None));
    assert_eq!(bounded_read_step(5, 10, "f", "/a"), Ok(Some(15)));
    assert_eq!(bounded_read_step(536870910, 10, "f", "/a").unwrap_err(), "f /a exceeds the 536870912-byte limit");
    assert!(bounded_read_step(u64::MAX, 1, "f", "/a").is_err());
}

fn launch() -> PreparedAgentLaunch {
    PreparedAgentLaunch {
        argv: vec!["relay".to_string(), "codex".to_string(), "--yes".to_string()],
        host_index: 1,
        env: vec![("A".to_string(), "1".to_string()), ("TOKEN".to_string(), "old".to_string())],
        temp_dirs: vec![],
        notes: vec![],
        secret_env_names: vec![],
    }
}

#[test]
fn secret_variables_replace_earlier_settings_once() {
    let mut plan = launch();
    plan.set_secret_env("TOKEN".to_string(), "new".to_string());
    plan.set_secret_env("TOKEN".to_string(), "newer".to_string());
    assert_eq!(plan.env, vec![("A".to_string(), "1".to_string()), ("TOKEN".to_string(), "newer".to_string())]);
    assert_eq!(plan.secret_env_names, vec!["TOKEN".to_string()]);
}

#[test]
fn host_arguments_are_inserted_after_the_host_program() {
    let mut argv = launch().argv;
    insert_after_host(&mut argv, 1, vec!["-c".to_string(), "x=1".to_string()]);
    assert_eq!(argv, vec!["relay", "codex", "-c", "x=1", "--yes"]);
    let mut last = vec!["host".to_string()];
    insert_after_host(&mut last, 0, vec!["a".to_string()]);
    assert_eq!(last, vec!["host", "a"]);
}

#[test]
fn atomic_temporary_files_are_hidden_and_unique() {
    assert_eq!(atomic_temp_file_name(Some("config.toml"), "u1"), ".config.toml.u1.tmp");
    assert_eq!(atomic_temp_file_name(None, "u1"), ".nemo-relay.u1.tmp");
    assert_eq!(
        fresh_atomic_temp_file_name(Some("x"), 0, [0; 10]),
        ".x.00000000-0000-7000-8000-000000000000.tmp"
    );
    assert_eq!(
        fresh_atomic_temp_file_name(None, 0x0001_0203_0405, [0xff; 10]),
        ".nemo-relay.00010203-0405-7fff-bfff-ffffffffffff.tmp"
    );
    let a = fresh_atomic_temp_file_name(Some("x"), 1, [1; 10]);
    let b = fresh_atomic_temp_file_name(Some("x"), 1, [2; 10]);
    assert_ne!(a, b);
}

#[test]
fn cleanup_failures_are_all_reported_in_order() {
    assert!(combine_cleanup_results(vec![
        ("restore foreground terminal".to_string(), Ok(())),
        ("terminate coding-agent process tree".to_string(), Ok(())),
    ])
    .is_ok());
    assert_eq!(
        combine_cleanup_results(vec![
            ("restore foreground terminal".to_string(), Err("not a tty".to_string())),
            ("terminate coding-agent process tree".to_string(), Ok(())),
            ("reap coding-agent wrapper".to_string(), Err("no child".to_string())),
        ])
        .unwrap_err(),
        "restore foreground terminal: not a tty; reap coding-agent wrapper: no child"
    );
}

#[test]
fn supervision_failures_mention_a_failed_cleanup() {
    assert_eq!(
        supervision_failure_message("interrupted", None),
        "failed while supervising the coding-agent tree: interrupted"
    );
    assert_eq!(
        supervision_failure_message("interrupted", Some("denied")),
        "failed while supervising the coding-agent tree: interrupted; additionally failed to terminate the coding-agent tree: denied"
    );
}
