use healer_fuzzer::exec::{
    classify_recv_error, classify_recv_result, classify_send_error, executor_args, Crash,
    ExecResult, RecvDecision, RecvError, SendDecision, SendError,
};

#[test]
fn memleak_failure_is_promoted_to_crash() {
    let r = classify_recv_result(true, ExecResult::Failed("CRASH-MEMLEAK: xyz".to_string()));
    match r {
        Err(crash) => assert_eq!(crash.inner, "CRASH-MEMLEAK: xyz"),
        Ok(_) => panic!("leak failure must surface as a crash"),
    }
}

#[test]
fn memleak_promotion_needs_the_check_enabled() {
    let r = classify_recv_result(false, ExecResult::Failed("CRASH-MEMLEAK: xyz".to_string()));
    match r {
        Ok(ExecResult::Failed(reason)) => assert_eq!(reason, "CRASH-MEMLEAK: xyz"),
        _ => panic!("without the check the failure passes through"),
    }
}

#[test]
fn ordinary_results_pass_through() {
    match classify_recv_result(true, ExecResult::Failed("just failed".to_string())) {
        Ok(ExecResult::Failed(reason)) => assert_eq!(reason, "just failed"),
        _ => panic!("plain failure passes through"),
    }
    match classify_recv_result(true, ExecResult::Okay(vec![vec![1, 2]])) {
        Ok(ExecResult::Okay(raw)) => assert_eq!(raw, vec![vec![1, 2]]),
        _ => panic!("success passes through"),
    }
}

#[test]
fn crash_is_leak_matches_marker() {
    assert!(Crash { inner: "bad CRASH-MEMLEAK trace".to_string() }.is_leak());
    assert!(!Crash { inner: "kernel BUG at mm".to_string() }.is_leak());
    assert!(!Crash { inner: "CRASH-MEMLEA".to_string() }.is_leak());
}

#[test]
fn send_errors_classified() {
    match classify_send_error(SendError::WouldBlock) {
        SendDecision::RestartAndReport(reason) => assert_eq!(reason, "Prog send blocked"),
        _ => panic!("blocked send restarts"),
    }
    assert!(matches!(classify_send_error(SendError::Io), SendDecision::AbortOsErr));
    assert!(matches!(classify_send_error(SendError::Serialize), SendDecision::AbortSoftware));
}

#[test]
fn recv_errors_classified() {
    // The blocked-receive reason is, on purpose, the send-side string.
    match classify_recv_error(RecvError::WouldBlock, true) {
        RecvDecision::RestartAndReport(reason) => assert_eq!(reason, "Prog send blocked"),
        _ => panic!("blocked receive restarts"),
    }
    assert!(matches!(
        classify_recv_error(RecvError::Serialize, true),
        RecvDecision::AbortSoftware
    ));
    assert!(matches!(
        classify_recv_error(RecvError::Io, false),
        RecvDecision::SurfaceGuestCrash
    ));
    match classify_recv_error(RecvError::Io, true) {
        RecvDecision::RelaunchAgentAndReport(reason) => assert_eq!(reason, "Executor crashed"),
        _ => panic!("agent-only crash relaunches the agent"),
    }
}

#[test]
fn executor_args_assembled() {
    let args = executor_args("/guest/t.fots", "10.0.2.2:4000", false, false);
    assert_eq!(args, vec!["-t", "/guest/t.fots", "-a", "10.0.2.2:4000"]);
    let args = executor_args("/guest/t.fots", "10.0.2.2:4000", true, true);
    assert_eq!(args, vec!["-t", "/guest/t.fots", "-a", "10.0.2.2:4000", "-m", "-c"]);
    let args = executor_args("/t", "h:1", false, true);
    assert_eq!(args, vec!["-t", "/t", "-a", "h:1", "-c"]);
    let args = executor_args("/t", "h:1", true, false);
    assert_eq!(args, vec!["-t", "/t", "-a", "h:1", "-m"]);
}
