//! The statistics sampler: periodic snapshots of the shared counters, kept
//! in a fixed-capacity ring, with a report due at a configured interval.
//! The surrounding process does the sleeping, the mailing and the file
//! writing; the bookkeeping here decides what each tick records and when a
//! report is due.

use crate::ring::{ring_push, RingQueue};
use vstd::prelude::*;

verus! {

/// The capacity of the sample ring.
pub const STATS_CAP: usize = 1024;

/// One snapshot of the shared counters.
#[derive(Clone, Copy, Debug, PartialEq, Eq, Structural)]
pub struct Stats {
    pub corpus: usize,
    pub blocks: usize,
    pub branches: usize,
    pub normal_case: usize,
    pub failed_case: usize,
    pub crashed_case: usize,
}

/// Sampler configuration: the sample period in seconds and the report
/// period in minutes.
#[derive(Clone, Copy, Debug, PartialEq, Eq, Structural)]
pub struct SamplerConf {
    pub sample_interval: u64,
    pub report_interval: u64,
}

impl SamplerConf {
    /// The configuration is acceptable when the sample period is at least
    /// ten seconds, the report period is over ten minutes, and an hour of
    /// sample periods is no shorter than the report period in minutes.
    pub open spec fn spec_valid(&self) -> bool {
        !(self.sample_interval < 10 || self.report_interval <= 10 || self.sample_interval * 60
            < self.report_interval)
    }

    pub fn check(&self) -> (ok: bool)
        ensures
            ok == self.spec_valid(),
    {
        let wide: u128 = (self.sample_interval as u128) * 60;
        !(self.sample_interval < 10 || self.report_interval <= 10 || wide
            < self.report_interval as u128)
    }
}

/// The sample and report periods in seconds: the configured values, or the
/// defaults of fifteen seconds and one hour.
pub fn intervals(conf: &Option<SamplerConf>) -> (r: (u64, u64))
    requires
        match conf {
            Some(c) => c.report_interval <= 0xffff_ffff,
            None => true,
        },
    ensures
        match conf {
            Some(c) => r == (c.sample_interval, (c.report_interval * 60) as u64),
            None => r == (15u64, 3600u64),
        },
{
    match conf {
        Some(c) => (c.sample_interval, c.report_interval * 60),
        None => (15, 3600),
    }
}

/// The sampler's state: the ring of snapshots and the elapsed seconds since
/// the last report.
pub struct Sampler {
    stats: RingQueue<Stats>,
    last_report: u64,
    sample_interval: u64,
    report_interval: u64,
}

impl Sampler {
    pub closed spec fn wf(&self) -> bool {
        self.stats.wf() && self.stats.spec_cap() == STATS_CAP
    }

    pub closed spec fn spec_stats(&self) -> Seq<Stats> {
        self.stats@
    }

    pub closed spec fn spec_last_report(&self) -> u64 {
        self.last_report
    }

    pub closed spec fn spec_sample_interval(&self) -> u64 {
        self.sample_interval
    }

    pub closed spec fn spec_report_interval(&self) -> u64 {
        self.report_interval
    }

    pub fn new(conf: &Option<SamplerConf>) -> (s: Sampler)
        requires
            match conf {
                Some(c) => c.report_interval <= 0xffff_ffff,
                None => true,
            },
        ensures
            s.wf(),
            s.spec_stats() == Seq::<Stats>::empty(),
            s.spec_last_report() == 0,
            match conf {
                Some(c) => s.spec_sample_interval() == c.sample_interval
                    && s.spec_report_interval() == c.report_interval * 60,
                None => s.spec_sample_interval() == 15 && s.spec_report_interval() == 3600,
            },
    {
        let (sample_interval, report_interval) = intervals(conf);
        Sampler { stats: RingQueue::new(STATS_CAP), last_report: 0, sample_interval, report_interval }
    }

    /// One sampling tick: record a snapshot of the given counters and say
    /// whether a report is due, resetting the elapsed time when it is.
    pub fn tick(&mut self, corpus: usize, coverage: (usize, usize), record: (usize, usize, usize))
        -> (due: Option<Stats>)
        requires
            old(self).wf(),
            old(self).spec_last_report() + old(self).spec_sample_interval() <= u64::MAX,
        ensures
            final(self).wf(),
            final(self).spec_sample_interval() == old(self).spec_sample_interval(),
            final(self).spec_report_interval() == old(self).spec_report_interval(),
            ({
                let stat = Stats {
                    corpus,
                    blocks: coverage.0,
                    branches: coverage.1,
                    normal_case: record.0,
                    failed_case: record.1,
                    crashed_case: record.2,
                };
                let elapsed = old(self).spec_last_report() + old(self).spec_sample_interval();
                &&& final(self).spec_stats() == ring_push(
                    old(self).spec_stats(),
                    STATS_CAP as nat,
                    stat,
                )
                &&& if old(self).spec_report_interval() <= elapsed {
                    due == Some(stat) && final(self).spec_last_report() == 0
                } else {
                    due is None && final(self).spec_last_report() == elapsed
                }
            }),
    {
        self.last_report = self.last_report + self.sample_interval;
        let stat = Stats {
            corpus,
            blocks: coverage.0,
            branches: coverage.1,
            normal_case: record.0,
            failed_case: record.1,
            crashed_case: record.2,
        };
        let due = if self.report_interval <= self.last_report {
            self.last_report = 0;
            Some(stat)
        } else {
            None
        };
        self.stats.push(stat);
        due
    }

    pub fn len(&self) -> (n: usize)
        ensures
            n == self.spec_stats().len(),
    {
        self.stats.len()
    }

    /// The `i`-th oldest snapshot.
    pub fn get(&self, i: usize) -> (s: Stats)
        requires
            i < self.spec_stats().len(),
        ensures
            s == self.spec_stats()[i as int],
    {
        *self.stats.get(i)
    }
}

} // verus!
