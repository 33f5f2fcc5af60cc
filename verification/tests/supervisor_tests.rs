use alas_launcher::supervisor::{
    backend_args, launcher_tag, poll_outcomes, readiness_address, should_sweep_kill,
    timeout_message, ManagedBackend, PollTimer, TerminateAction, GRACE_MS, READY_TIMEOUT_MS,
};

#[test]
fn terminate_consumes_the_handle_once() {
    let mut backend = ManagedBackend::new(22267);
    assert_eq!(backend.terminate(), TerminateAction::Graceful);
    // A second terminate is a no-op and does not error.
    assert_eq!(backend.terminate(), TerminateAction::AlreadyDone);
    assert_eq!(backend.terminate(), TerminateAction::AlreadyDone);
}

#[test]
fn backend_port_is_kept() {
    let backend = ManagedBackend::new(8080);
    assert_eq!(backend.port(), 8080);
}

/// Drives a poll loop over per-attempt outcomes, as the readiness and
/// grace loops do: a true outcome ends the loop at once, the limit caps
/// the number of attempts.
fn drive(limit_ms: u64, outcomes: &[bool]) -> (bool, usize) {
    let mut timer = PollTimer::new(limit_ms);
    let mut attempts = 0usize;
    while timer.within_limit() {
        let outcome = outcomes.get(attempts).copied().unwrap_or(false);
        attempts += 1;
        if outcome {
            return (true, attempts);
        }
        timer.advance();
    }
    (false, attempts)
}

#[test]
fn readiness_poll_stops_at_first_success() {
    let (ready, attempts) = drive(READY_TIMEOUT_MS, &[false, false, true, false]);
    assert!(ready);
    assert_eq!(attempts, 3);
}

#[test]
fn readiness_poll_times_out_when_the_port_never_opens() {
    // A backend that never opens its socket: every attempt within the
    // budget fails, and the loop gives up after the full window.
    let (ready, attempts) = drive(READY_TIMEOUT_MS, &[]);
    assert!(!ready);
    assert_eq!(attempts, 600);
    // The half-started process is then torn down.
    let mut backend = ManagedBackend::new(22267);
    assert_eq!(backend.terminate(), TerminateAction::Graceful);
    assert!(!matches!(backend.terminate(), TerminateAction::Graceful));
}

#[test]
fn poll_loop_sees_a_success_within_the_budget() {
    // 500 ms allows five attempts: a success at the fifth is seen, one
    // just past the budget is not.
    let mut outcomes = vec![false, false, false, false, true];
    assert!(poll_outcomes(500, &outcomes));
    outcomes.insert(0, false);
    assert!(!poll_outcomes(500, &outcomes));
    assert!(!poll_outcomes(500, &vec![]));
    assert!(!poll_outcomes(0, &vec![true]));
}

#[test]
fn grace_poll_escalates_after_its_window() {
    let (exited, attempts) = drive(GRACE_MS, &[]);
    assert!(!exited);
    assert_eq!(attempts, 5);
}

#[test]
fn backend_command_line() {
    let args = backend_args(22267);
    assert_eq!(args, vec!["gui.py", "--host", "127.0.0.1", "--port", "22267"]);
}

#[test]
fn readiness_address_names_loopback_and_port() {
    assert_eq!(readiness_address(22267), "127.0.0.1:22267");
    assert_eq!(readiness_address(80), "127.0.0.1:80");
}

#[test]
fn timeout_error_names_the_port() {
    assert_eq!(timeout_message(22267), "Timeout waiting for port 22267 to be ready");
}

#[test]
fn launcher_tag_names_the_supervisor_pid() {
    assert_eq!(launcher_tag(4321), "ALAS_LAUNCHER_PID=4321");
}

#[test]
fn orphan_sweep_matches_tag_and_spares_itself() {
    assert!(should_sweep_kill(100, 42, "ALAS_LAUNCHER_PID=42"));
    assert!(!should_sweep_kill(42, 42, "ALAS_LAUNCHER_PID=42"));
    assert!(!should_sweep_kill(100, 42, "ALAS_LAUNCHER_PID=43"));
    assert!(!should_sweep_kill(100, 42, "PATH=/usr/bin"));
}
