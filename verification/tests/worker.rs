use healer_fuzzer::exec::{Crash, ExecResult};
use healer_fuzzer::fuzzer::{Action, Event, Fuzzer, Req, WorkerState};
use healer_fuzzer::prog::{Call, Prog, Target};

fn target() -> Target {
    Target::new(
        vec![(0, "grp".to_string())],
        vec![
            (0, "f0".to_string()),
            (1, "f1".to_string()),
            (7, "f7".to_string()),
            (8, "f8".to_string()),
            (9, "f9".to_string()),
        ],
    )
}

fn prog(fids: &[u64]) -> Prog {
    Prog::new(0, fids.iter().map(|f| Call { fid: *f }).collect())
}

fn ok(traces: Vec<Vec<u64>>) -> Event {
    Event::ExecDone(Ok(ExecResult::Okay(traces)))
}

fn failed(reason: &str) -> Event {
    Event::ExecDone(Ok(ExecResult::Failed(reason.to_string())))
}

fn crashed(inner: &str) -> Event {
    Event::ExecDone(Err(Crash { inner: inner.to_string() }))
}

fn exec_len(a: &Action) -> usize {
    match &a.req {
        Req::Exec(p) => p.len(),
        _ => panic!("expected an execution request"),
    }
}

#[test]
fn zero_seeds_pure_generation() {
    let mut f = Fuzzer::new(target());
    let mut w = WorkerState::new(vec![]);

    let a = f.step(&mut w, Event::Start);
    assert!(matches!(a.req, Req::Gen));

    let a = f.step(&mut w, Event::Generated(prog(&[0])));
    assert_eq!(exec_len(&a), 1);
    // First run shows blocks 10 and 11: confirm on the one-call prefix.
    let a = f.step(&mut w, ok(vec![vec![10, 11]]));
    assert_eq!(exec_len(&a), 1);
    // Confirmation reproduces the coverage; run the minimized program.
    let a = f.step(&mut w, ok(vec![vec![10, 11]]));
    assert_eq!(exec_len(&a), 1);
    // Full run recorded; the corpus grows by exactly one.
    let a = f.step(&mut w, ok(vec![vec![10, 11]]));
    assert!(matches!(a.req, Req::Gen));
    assert!(a.analyze.is_some());
    assert_eq!(f.corpus.len(), 1);
    assert_eq!(f.feedback.len(), (2, 1));
    assert_eq!(f.record.len(), (1, 0, 0));
    let case = f.record.normal_get(0);
    assert_eq!(case.new_block, 2);
    assert_eq!(case.new_branch, 1);
    assert_eq!(case.block_num, vec![2]);
    assert_eq!(case.branch_num, vec![1]);

    // A second program with the same behavior produces no new coverage
    // and nothing is retained.
    let a = f.step(&mut w, Event::Generated(prog(&[0])));
    assert_eq!(exec_len(&a), 1);
    let a = f.step(&mut w, ok(vec![vec![10, 11]]));
    assert!(matches!(a.req, Req::Gen));
    assert_eq!(f.corpus.len(), 1);
    assert_eq!(f.feedback.len(), (2, 1));
    assert_eq!(f.record.len(), (1, 0, 0));
}

#[test]
fn new_coverage_confirmed() {
    let mut f = Fuzzer::new(target());
    let mut w = WorkerState::new(vec![]);
    f.step(&mut w, Event::Start);
    let a = f.step(&mut w, Event::Generated(prog(&[0, 1])));
    assert_eq!(exec_len(&a), 2);
    // Call 0's trace is new: confirm its one-call prefix.
    let a = f.step(&mut w, ok(vec![vec![1], vec![2, 3]]));
    assert_eq!(exec_len(&a), 1);
    // The confirmation run returns two traces for a one-call program:
    // length mismatch, so call 0 is dropped and call 1 confirms instead.
    let a = f.step(&mut w, ok(vec![vec![1], vec![2, 3]]));
    assert_eq!(exec_len(&a), 2);
    // Call 1 confirms; minimization asks about deleting call 0.
    let a = f.step(&mut w, ok(vec![vec![1], vec![2, 3]]));
    assert!(matches!(a.req, Req::AskRemove(0)));
    // Deletion is not legal: run the two-call program in full.
    let a = f.step(&mut w, Event::RemoveAns(false));
    assert_eq!(exec_len(&a), 2);
    let a = f.step(&mut w, ok(vec![vec![1], vec![2, 3]]));
    assert!(matches!(a.req, Req::Gen));
    assert_eq!(f.corpus.len(), 1);
    // Only the confirmed coverage of call 1 was merged.
    let case = f.record.normal_get(0);
    assert_eq!(case.new_block, 2);
    assert_eq!(case.new_branch, 1);
    assert_eq!(case.block_num, vec![1, 2]);
    assert_eq!(f.feedback.len(), (2, 1));
}

#[test]
fn flaky_coverage_keeps_the_stable_part() {
    let mut f = Fuzzer::new(target());
    let mut w = WorkerState::new(vec![]);
    f.step(&mut w, Event::Start);
    let a = f.step(&mut w, Event::Generated(prog(&[0])));
    assert_eq!(exec_len(&a), 1);
    // First run claims blocks 1, 2, 3.
    let a = f.step(&mut w, ok(vec![vec![1, 2, 3]]));
    assert_eq!(exec_len(&a), 1);
    // The second run only reproduces block 1: the intersection {1} is
    // still non-empty, so the program is retained.
    let a = f.step(&mut w, ok(vec![vec![1]]));
    assert_eq!(exec_len(&a), 1);
    let a = f.step(&mut w, ok(vec![vec![1]]));
    assert!(matches!(a.req, Req::Gen));
    assert_eq!(f.corpus.len(), 1);
    let case = f.record.normal_get(0);
    assert_eq!(case.new_block, 1);
    assert_eq!(case.new_branch, 0);
    // Only the coverage present on both runs entered the store.
    assert_eq!(f.feedback.len(), (1, 0));
}

#[test]
fn crash_with_repro() {
    let mut f = Fuzzer::new(target());
    let mut w = WorkerState::new(vec![]);
    f.step(&mut w, Event::Start);
    f.step(&mut w, Event::Generated(prog(&[7])));
    // First run crashes the guest: restart and re-run to reproduce.
    let a = f.step(&mut w, crashed("kernel BUG at mm/slab.c"));
    assert!(matches!(a.req, Req::RestartExec(_)));
    assert!(a.crash_report.is_none());
    // The second run crashes too: recorded as reproduced, restart again.
    let a = f.step(&mut w, crashed("kernel BUG at mm/slab.c"));
    assert!(matches!(a.req, Req::Restart));
    let report = a.crash_report.expect("crash case to persist and mail");
    assert!(report.repo);
    assert_eq!(report.crash.inner, "kernel BUG at mm/slab.c");
    assert_eq!(report.meta.title, "grp_f7_0");
    assert_eq!(f.record.len(), (0, 0, 1));
    assert!(f.record.crash_get(0).repo);
    let a = f.step(&mut w, Event::Restarted);
    assert!(matches!(a.req, Req::Gen));
}

#[test]
fn crash_without_repro() {
    let mut f = Fuzzer::new(target());
    let mut w = WorkerState::new(vec![]);
    f.step(&mut w, Event::Start);
    f.step(&mut w, Event::Generated(prog(&[7])));
    let a = f.step(&mut w, crashed("kernel BUG somewhere"));
    assert!(matches!(a.req, Req::RestartExec(_)));
    // The second run executes fine: recorded as not reproduced.
    let a = f.step(&mut w, ok(vec![vec![1]]));
    assert!(matches!(a.req, Req::Gen));
    let report = a.crash_report.expect("crash case");
    assert!(!report.repo);
    assert_eq!(f.record.len(), (0, 0, 1));
    assert!(!f.record.crash_get(0).repo);
}

#[test]
fn memleak_crash_is_not_reproduced() {
    let mut f = Fuzzer::new(target());
    let mut w = WorkerState::new(vec![]);
    f.step(&mut w, Event::Start);
    f.step(&mut w, Event::Generated(prog(&[7])));
    // A memory-leak crash is logged only: no reproduction run, no record.
    let a = f.step(&mut w, crashed("CRASH-MEMLEAK: leaked 128 bytes"));
    assert!(matches!(a.req, Req::Gen));
    assert!(a.crash_report.is_none());
    assert_eq!(f.record.len(), (0, 0, 0));
    assert_eq!(f.corpus.len(), 0);
}

#[test]
fn failed_run_is_recorded() {
    let mut f = Fuzzer::new(target());
    let mut w = WorkerState::new(vec![]);
    f.step(&mut w, Event::Start);
    f.step(&mut w, Event::Generated(prog(&[7, 8])));
    let a = f.step(&mut w, failed("executor refused"));
    assert!(matches!(a.req, Req::Gen));
    assert_eq!(f.record.len(), (0, 1, 0));
    assert_eq!(f.record.failed_get(0).reason, "executor refused");
    assert_eq!(f.record.failed_get(0).meta.title, "grp_f8_0");
}

#[test]
fn minimization_shortens_but_keeps_last_call() {
    let mut f = Fuzzer::new(target());
    let mut w = WorkerState::new(vec![]);
    f.step(&mut w, Event::Start);
    let a = f.step(&mut w, Event::Generated(prog(&[7, 8, 9])));
    assert_eq!(exec_len(&a), 3);
    // Only the last call's trace shows anything.
    let a = f.step(&mut w, ok(vec![vec![], vec![], vec![5]]));
    assert_eq!(exec_len(&a), 3);
    let a = f.step(&mut w, ok(vec![vec![], vec![], vec![5]]));
    assert!(matches!(a.req, Req::AskRemove(0)));
    // Deleting call 0 is legal and keeps the coverage.
    let a = f.step(&mut w, Event::RemoveAns(true));
    assert_eq!(exec_len(&a), 2);
    let a = f.step(&mut w, ok(vec![vec![], vec![5]]));
    assert!(matches!(a.req, Req::AskRemove(0)));
    // Deleting the next call works too.
    let a = f.step(&mut w, Event::RemoveAns(true));
    assert_eq!(exec_len(&a), 1);
    let a = f.step(&mut w, ok(vec![vec![5]]));
    // Down to one call: never shorter than one, and the last call stays.
    match &a.req {
        Req::Exec(p) => {
            assert_eq!(p.len(), 1);
            assert_eq!(p.calls[0].fid, 9);
        },
        _ => panic!("expected the full run of the minimized program"),
    }
    let a = f.step(&mut w, ok(vec![vec![5]]));
    assert!(matches!(a.req, Req::Gen));
    assert_eq!(f.corpus.len(), 1);
    let case = f.record.normal_get(0);
    assert_eq!(case.meta.title, "grp_f9_0");
    assert_eq!(case.p, "f9\n");
    assert_eq!(case.block_num, vec![1]);
}

#[test]
fn minimization_reverts_on_failed_candidate() {
    let mut f = Fuzzer::new(target());
    let mut w = WorkerState::new(vec![]);
    f.step(&mut w, Event::Start);
    f.step(&mut w, Event::Generated(prog(&[7, 9])));
    let a = f.step(&mut w, ok(vec![vec![], vec![5]]));
    assert_eq!(exec_len(&a), 2);
    let a = f.step(&mut w, ok(vec![vec![], vec![5]]));
    assert!(matches!(a.req, Req::AskRemove(0)));
    let a = f.step(&mut w, Event::RemoveAns(true));
    assert_eq!(exec_len(&a), 1);
    // The shortened candidate fails: take the deletion back and run the
    // previous candidate in full.
    let a = f.step(&mut w, failed("does not run"));
    assert_eq!(exec_len(&a), 2);
    let a = f.step(&mut w, ok(vec![vec![], vec![5]]));
    assert!(matches!(a.req, Req::Gen));
    assert_eq!(f.corpus.len(), 1);
    assert_eq!(f.record.normal_get(0).meta.title, "grp_f9_0");
}

#[test]
fn seeds_run_before_generation() {
    let mut f = Fuzzer::new(target());
    let mut w = WorkerState::new(vec![prog(&[7]), prog(&[]), prog(&[8])]);
    // The first seed runs first; empty seeds are skipped.
    let a = f.step(&mut w, Event::Start);
    match &a.req {
        Req::Exec(p) => assert_eq!(p.calls[0].fid, 7),
        _ => panic!("expected the first seed"),
    }
    let a = f.step(&mut w, failed("r"));
    match &a.req {
        Req::Exec(p) => assert_eq!(p.calls[0].fid, 8),
        _ => panic!("expected the third seed"),
    }
    let a = f.step(&mut w, failed("r"));
    assert!(matches!(a.req, Req::Gen));
}

#[test]
fn unexpected_event_aborts_the_worker() {
    let mut f = Fuzzer::new(target());
    let mut w = WorkerState::new(vec![]);
    // The worker waits for a program; a restart notice is a protocol
    // violation and stops it.
    let a = f.step(&mut w, Event::Restarted);
    match a.req {
        Req::Abort(code) => assert_eq!(code, exitcode::SOFTWARE),
        _ => panic!("protocol violation must abort"),
    }
    // A stopped worker keeps asking to abort.
    let a = f.step(&mut w, Event::Start);
    assert!(matches!(a.req, Req::Abort(_)));
}
