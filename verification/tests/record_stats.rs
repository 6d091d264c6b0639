use healer_fuzzer::exec::Crash;
use healer_fuzzer::prog::{Call, Prog, Target};
use healer_fuzzer::report::TestCaseRecord;
use healer_fuzzer::stats::{intervals, Sampler, SamplerConf};
use healer_fuzzer::Config;
use healer_fuzzer::exec::ExecutorConf;

fn target() -> Target {
    Target::new(
        vec![(1, "FileStat".to_string()), (2, "Net".to_string())],
        vec![(7, "stat".to_string()), (8, "lstat".to_string())],
    )
}

fn prog(gid: u64, fids: &[u64]) -> Prog {
    Prog::new(gid, fids.iter().map(|f| Call { fid: *f }).collect())
}

#[test]
fn record_ids_strictly_increase_across_kinds() {
    let mut r = TestCaseRecord::new(target());
    assert_eq!(r.len(), (0, 0, 0));
    r.insert_failed(&prog(1, &[7]), "nope");
    let c = r.insert_crash(&prog(1, &[8]), Crash { inner: "kernel BUG".to_string() }, true);
    r.insert_failed(&prog(2, &[7]), "again");
    assert_eq!(r.len(), (0, 2, 1));
    assert_eq!(r.failed_get(0).meta.id, 0);
    assert_eq!(c.meta.id, 1);
    assert_eq!(r.crash_get(0).meta.id, 1);
    assert_eq!(r.failed_get(1).meta.id, 2);
    assert!(r.failed_get(0).meta.id < r.crash_get(0).meta.id);
    assert!(r.crash_get(0).meta.id < r.failed_get(1).meta.id);
}

#[test]
fn record_title_is_group_lastcall_id() {
    let mut r = TestCaseRecord::new(target());
    r.insert_failed(&prog(1, &[8, 7]), "r");
    assert_eq!(r.failed_get(0).meta.title, "FileStat_stat_0");
    // Same target, same program shape, next id.
    r.insert_failed(&prog(1, &[8, 7]), "r");
    assert_eq!(r.failed_get(1).meta.title, "FileStat_stat_1");
    // Titles depend only on (target, prog, id): two records built on equal
    // targets agree.
    let mut r2 = TestCaseRecord::new(target());
    r2.insert_failed(&prog(1, &[8, 7]), "other");
    assert_eq!(r2.failed_get(0).meta.title, "FileStat_stat_0");
    // An undeclared group or function renders as nothing.
    let mut r3 = TestCaseRecord::new(target());
    r3.insert_failed(&prog(9, &[99]), "r");
    assert_eq!(r3.failed_get(0).meta.title, "__0");
}

#[test]
fn record_failed_case_holds_reason_and_script() {
    let mut r = TestCaseRecord::new(target());
    r.insert_failed(&prog(1, &[7, 8]), "executor said no");
    let c = r.failed_get(0);
    assert_eq!(c.reason, "executor said no");
    assert_eq!(c.p, "stat\nlstat\n");
}

#[test]
fn record_crash_case_reports_repro_and_crash() {
    let mut r = TestCaseRecord::new(target());
    let rc = r.insert_crash(&prog(2, &[7]), Crash { inner: "kernel BUG at x".to_string() }, false);
    assert!(!rc.repo);
    assert_eq!(rc.crash.inner, "kernel BUG at x");
    assert_eq!(rc.meta.title, "Net_stat_0");
    assert_eq!(r.crash_get(0).crash.inner, "kernel BUG at x");
    assert_eq!(r.len(), (0, 0, 1));
}

#[test]
fn sampler_conf_check_bounds() {
    assert!(SamplerConf { sample_interval: 15, report_interval: 60 }.check());
    assert!(!SamplerConf { sample_interval: 9, report_interval: 60 }.check());
    assert!(!SamplerConf { sample_interval: 15, report_interval: 10 }.check());
    // The written rule rejects a report period (in minutes) that exceeds
    // an hour of sample periods, odd as that reads.
    assert!(!SamplerConf { sample_interval: 10, report_interval: 601 }.check());
    assert!(SamplerConf { sample_interval: 10, report_interval: 600 }.check());
    assert!(SamplerConf { sample_interval: 10, report_interval: 11 }.check());
}

#[test]
fn sampler_intervals_defaults() {
    assert_eq!(intervals(&None), (15, 3600));
    assert_eq!(
        intervals(&Some(SamplerConf { sample_interval: 20, report_interval: 30 })),
        (20, 1800)
    );
}

#[test]
fn sampler_tick_reports_when_due() {
    let conf = Some(SamplerConf { sample_interval: 30, report_interval: 11 });
    let mut s = Sampler::new(&conf);
    // Report due after 660 seconds: the 22nd tick of 30 seconds.
    for k in 0..21 {
        let due = s.tick(k, (0, 0), (0, 0, 0));
        assert!(due.is_none());
    }
    let due = s.tick(21, (5, 6), (1, 2, 3));
    let stat = due.expect("report due");
    assert_eq!(stat.corpus, 21);
    assert_eq!(stat.blocks, 5);
    assert_eq!(stat.branches, 6);
    assert_eq!(stat.normal_case, 1);
    assert_eq!(stat.failed_case, 2);
    assert_eq!(stat.crashed_case, 3);
    assert_eq!(s.len(), 22);
    // The elapsed counter reset: the next tick is not due.
    assert!(s.tick(22, (0, 0), (0, 0, 0)).is_none());
}

#[test]
fn sampler_ring_overwrites_oldest() {
    let conf = Some(SamplerConf { sample_interval: 10, report_interval: 600 });
    let mut s = Sampler::new(&conf);
    for k in 0..1030usize {
        s.tick(k, (0, 0), (0, 0, 0));
    }
    assert_eq!(s.len(), 1024);
    // The six oldest samples fell out.
    assert_eq!(s.get(0).corpus, 6);
    assert_eq!(s.get(1023).corpus, 1029);
}

#[test]
fn config_check_with_bounds_vm_num() {
    let conf = Config {
        fots_bin: "./t.fots".to_string(),
        corpus: None,
        vm_num: 4,
        executor: ExecutorConf {
            path: "./executor".to_string(),
            host_ip: None,
            concurrency: false,
            memleak_check: false,
        },
        sampler: None,
    };
    assert!(conf.check_with(4));
    assert!(conf.check_with(8));
    assert!(!conf.check_with(3));
    let mut zero = conf.clone();
    zero.vm_num = 0;
    assert!(!zero.check_with(8));
    let mut with_sampler = conf;
    with_sampler.sampler = Some(SamplerConf { sample_interval: 1, report_interval: 60 });
    assert!(!with_sampler.check_with(8));
}
