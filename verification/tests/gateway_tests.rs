use relay_gateway::bootstrap_state::startup_lock_step;
use relay_gateway::operation_lock::{LockAttempt, LockWait};
use relay_gateway::banner::{
    banner_art_width, banner_line, build_grid, padded_row,
    frame_width, plain_header, render_docked_frame, render_frame, supports_banner_for, terminal_width_for,
};
use relay_gateway::bootstrap_state::{
    after_termination_wait, identity_matches, lock_file_name, lock_name, owner_file_name, process_start_time,
    recovery_file_name, shutdown_probe, stem_from_host_port, stop_start, unhealthy_owner_action, OwnerRecord, RelayHealth, StopStart,
    TerminationStage, UnhealthyOwnerAction,
};
use relay_gateway::gateway_stop::{
    confirm_listener, is_relay_process, listener_exit_step, select_relay_listener, stop_signal, validate_stop_bind,
    ListenerRecord, StopSignal,
};
use relay_gateway::sampling::{next_rng_state, rng_seed};
use relay_gateway::thin::{initialize, is_allowlisted, InstallLatch, LLM_NAME, SESSION_NAME};

#[test]
fn banners_need_a_wide_color_terminal() {
    assert!(supports_banner_for(true, false, None, Some("xterm"), Some(120)));
    assert!(!supports_banner_for(false, false, None, None, Some(120)));
    assert!(!supports_banner_for(true, true, None, None, Some(120)));
    assert!(!supports_banner_for(true, false, Some("true"), None, Some(120)));
    assert!(!supports_banner_for(true, false, Some("1"), None, Some(120)));
    assert!(supports_banner_for(true, false, Some("false"), None, Some(120)));
    assert!(!supports_banner_for(true, false, None, Some("dumb"), Some(120)));
    assert!(!supports_banner_for(true, false, None, None, Some(104)));
    assert!(supports_banner_for(true, false, None, None, Some(105)));
    assert_eq!(terminal_width_for(true, Some("200")), Some(200));
    assert_eq!(terminal_width_for(true, Some("wide")), Some(120));
    assert_eq!(terminal_width_for(true, None), Some(120));
    assert_eq!(terminal_width_for(false, Some("200")), None);
}

#[test]
fn plain_frames_are_bordered_and_escape_free() {
    let width = frame_width(" v1.2.3");
    assert_eq!(width, 101);
    let frame = render_frame(false, "1.2.3");
    assert!(!frame.contains('\x1b'));
    let lines: Vec<&str> = frame.split('\n').collect();
    assert_eq!(lines[0], "");
    assert_eq!(lines[1].chars().count(), width + 2);
    assert!(lines[1].starts_with('╭') && lines[1].ends_with('╮'));
    assert_eq!(lines.len(), 1 + 1 + 8 + 1 + 1);
    for row in &lines[2..10] {
        assert!(row.starts_with('│') && row.ends_with('│'));
        assert_eq!(row.chars().count(), width + 2);
    }
    assert!(lines[10].starts_with('╰'));
    assert!(!frame.contains("v1.2.3"));
    let docked = render_docked_frame(false, "1.2.3");
    let docked_lines: Vec<&str> = docked.split('\n').collect();
    assert_eq!(docked_lines[9].chars().skip(1 + 92).take(7).collect::<String>(), " v1.2.3");
    let colored = render_docked_frame(true, "1.2.3");
    assert!(colored.contains("\x1b[38;5;112m"));
    assert!(colored.contains("\x1b[2;38;5;112mv\x1b[0m"));
    assert_eq!(plain_header("1.2.3"), "\n  NeMo Relay v1.2.3\n\n");
}

#[test]
fn endpoint_records_are_named_by_host_and_port() {
    assert_eq!(lock_name("not a url/with spaces"), "not_a_url_with_spaces");
    assert_eq!(lock_name("http://127.0.0.1:47632"), "127.0.0.1-47632");
    assert_eq!(owner_file_name("http://127.0.0.1:47632"), "sidecar-127.0.0.1-47632.owner.json");
    assert_eq!(lock_file_name("http://127.0.0.1:47632"), "gateway-127.0.0.1-47632.lock");
    assert_eq!(recovery_file_name("http://127.0.0.1:47632"), "gateway-127.0.0.1-47632.recovery.json");
    assert_eq!(lock_name(""), "unknown");
}

#[test]
fn stems_come_from_the_parsed_host_and_port() {
    assert_eq!(stem_from_host_port("ignored", Some(("example.com".to_string(), 443))), "example.com-443");
    assert_eq!(stem_from_host_port("a b:c", None), "a_b_c");
    assert_eq!(stem_from_host_port("", None), "unknown");
    assert_eq!(stem_from_host_port("x", Some(("h/st".to_string(), 8))), "h_st-8");
    assert_eq!(lock_name("https://example.com/path"), "example.com-443");
}

#[test]
fn owner_records_are_valid_only_for_their_endpoint_and_protocol() {
    let record = OwnerRecord::new(42, "http://127.0.0.1:47632", "shutdown", Some("fingerprint"), "1.0.0", 3, Some(7));
    assert!(record.valid_for("http://127.0.0.1:47632", 3));
    assert!(!record.valid_for("http://127.0.0.1:47633", 3));
    assert!(!record.valid_for("http://127.0.0.1:47632", 4));
    let unfingerprinted = OwnerRecord::new(42, "http://127.0.0.1:47632", "shutdown", None, "1.0.0", 3, None);
    assert!(!unfingerprinted.valid_for("http://127.0.0.1:47632", 3));
    assert!(identity_matches(Some(7), Some(7)));
    assert!(!identity_matches(Some(7), Some(8)));
}

#[test]
fn process_start_times_come_from_the_stat_line() {
    let stat = "1234 (nemo relay) S 1 1234 1234 0 -1 4194560 100 0 0 0 5 3 0 0 20 0 1 0 987654 12345 678";
    assert_eq!(process_start_time(stat), Some(987654));
    assert_eq!(process_start_time("garbage"), None);
}

#[test]
fn unhealthy_owners_are_terminated_only_while_their_identity_holds() {
    assert!(matches!(unhealthy_owner_action(false, RelayHealth::Unavailable, true), UnhealthyOwnerAction::Keep));
    assert!(matches!(unhealthy_owner_action(true, RelayHealth::Compatible, true), UnhealthyOwnerAction::Keep));
    assert!(matches!(unhealthy_owner_action(true, RelayHealth::Foreign, false), UnhealthyOwnerAction::RemoveRecord));
    assert!(matches!(unhealthy_owner_action(true, RelayHealth::Unavailable, true), UnhealthyOwnerAction::Terminate));
    assert!(matches!(stop_start(RelayHealth::Unavailable, "u"), Ok(StopStart::RemoveStaleRecord)));
    assert!(matches!(stop_start(RelayHealth::Compatible, "u"), Ok(StopStart::RequestShutdown)));
    assert!(stop_start(RelayHealth::Foreign, "u").is_err());
    assert_eq!(shutdown_probe(RelayHealth::Unavailable, true, "u"), Ok(true));
    assert_eq!(shutdown_probe(RelayHealth::Compatible, true, "u"), Ok(false));
    assert!(shutdown_probe(RelayHealth::Compatible, false, "u").is_err());
    assert!(matches!(after_termination_wait(TerminationStage::Graceful, false, 9), Ok(Some(TerminationStage::Forced))));
    assert!(matches!(after_termination_wait(TerminationStage::Forced, true, 9), Ok(None)));
    assert!(after_termination_wait(TerminationStage::Forced, false, 9).is_err());
}

fn listener(socket: &str, pid: u32, name: &str) -> ListenerRecord {
    ListenerRecord { socket: socket.to_string(), is_tcp: true, pid, name: name.to_string(), path: String::new() }
}

#[test]
fn gateway_stop_targets_the_single_relay_listener() {
    assert!(validate_stop_bind(true, 47632, "127.0.0.1:47632").is_ok());
    assert_eq!(
        validate_stop_bind(false, 47632, "0.0.0.0:47632").err().unwrap().message(),
        "gateway stop requires a loopback address, got 0.0.0.0:47632"
    );
    assert_eq!(validate_stop_bind(true, 0, "127.0.0.1:0").err().unwrap().message(), "gateway stop requires a concrete nonzero port");
    let bind = "127.0.0.1:47632";
    assert!(matches!(select_relay_listener(bind, &vec![listener("127.0.0.1:1", 5, "nemo-relay")], false), Ok(None)));
    assert!(matches!(select_relay_listener(bind, &vec![listener("x", 1, "a"), listener(bind, 5, "nemo-relay")], false), Ok(Some(1))));
    assert_eq!(
        select_relay_listener(bind, &vec![listener(bind, 5, "nemo-relay"), listener(bind, 6, "nemo-relay")], false).err().unwrap().message(),
        "multiple processes listen at gateway address 127.0.0.1:47632: PIDs 5 and 6"
    );
    assert_eq!(
        select_relay_listener(bind, &vec![listener(bind, 5, "nginx")], false).err().unwrap().message(),
        "refusing to stop non-Relay process 'nginx' at 127.0.0.1:47632"
    );
    assert!(is_relay_process("NEMO-RELAY.exe", "", true));
    assert!(is_relay_process("x", "/usr/bin/nemo-relay", false));
    assert!(!is_relay_process("nemo-relayd", "", false));
    assert!(confirm_listener(bind, 5, 5).is_ok());
    assert_eq!(
        confirm_listener(bind, 5, 6).err().unwrap().message(),
        "gateway listener at 127.0.0.1:47632 changed from PID 5 to PID 6 before shutdown"
    );
    assert!(matches!(listener_exit_step(None, 5, true, bind), Ok(true)));
    assert!(matches!(listener_exit_step(Some(5), 5, true, bind), Ok(false)));
    assert_eq!(listener_exit_step(Some(5), 5, false, bind).err().unwrap().message(), "gateway process 5 at 127.0.0.1:47632 did not stop");
    assert_eq!(
        listener_exit_step(Some(6), 5, true, bind).err().unwrap().message(),
        "a different process replaced gateway PID 5 at 127.0.0.1:47632 during shutdown"
    );
    assert!(matches!(stop_signal(false, false), StopSignal::Interrupt));
    assert!(matches!(stop_signal(true, false), StopSignal::Kill));
    assert!(matches!(stop_signal(false, true), StopSignal::Kill));
}

#[test]
fn installation_runs_once_per_process() {
    let mut latch = InstallLatch::new();
    assert!(!initialize(&mut latch, || Err("offline".to_string())));
    assert!(!initialize(&mut latch, || Ok(())), "the first outcome is remembered");
    let mut fresh = InstallLatch::new();
    assert!(initialize(&mut fresh, || Ok(())));
    assert!(is_allowlisted("scope", SESSION_NAME));
    assert!(is_allowlisted("scope", LLM_NAME));
    assert!(!is_allowlisted("event", SESSION_NAME));
    assert!(!is_allowlisted("scope", "other"));
}

#[test]
fn the_sampling_generator_never_reaches_zero() {
    let mut state = rng_seed(0);
    for _ in 0..1000 {
        state = next_rng_state(state);
        assert_ne!(state, 0);
    }
}

#[test]
fn the_startup_lock_is_retried_until_its_deadline() {
    assert!(matches!(startup_lock_step(Ok(LockAttempt::Acquired), false, "/s/l.lock"), LockWait::Locked));
    assert!(matches!(startup_lock_step(Ok(LockAttempt::Contended), true, "/s/l.lock"), LockWait::Retry));
    match startup_lock_step(Ok(LockAttempt::Contended), false, "/s/l.lock") {
        LockWait::Failed(m) => assert_eq!(m, "timed out waiting for gateway startup lock /s/l.lock"),
        _ => panic!("expected a timeout"),
    }
    match startup_lock_step(Err("denied".to_string()), true, "/s/l.lock") {
        LockWait::Failed(m) => assert_eq!(m, "failed to acquire gateway startup lock /s/l.lock: denied"),
        _ => panic!("expected a failure"),
    }
}

#[test]
fn each_art_row_leans_one_column_right_of_the_row_above() {
    let width = 120;
    let grid = build_grid(width);
    let start = (width - banner_art_width()) / 2;
    assert_eq!(grid.len(), 8);
    assert!(grid[0].iter().all(|c| *c == ' ') && grid[7].iter().all(|c| *c == ' '));
    for r in 0..6 {
        assert_eq!(grid[r + 1], padded_row(banner_line(r), width, start + r));
    }
    assert_eq!(grid[1].iter().position(|c| *c != ' '), Some(start));
    assert_eq!(grid[2][start], ' ');
}
