//! The record of executed, failed and crashed test cases: three
//! fixed-capacity rings that overwrite their oldest entries, running
//! totals, and one process-wide id counter that every insertion advances.
//! Persisting the rings to disk and mailing crash reports is the
//! surrounding process's work, fed from the getters here.

use crate::exec::Crash;
use crate::feedback::{Block, Branch, CovSet};
use crate::prog::{name_or_empty, spec_script, script_of, Prog, Target};
use crate::ring::{lemma_ring_push_preserves, ring_push, RingQueue};
use crate::text::{dec_digits, fmt_u64};
use vstd::prelude::*;

verus! {

/// Capacity of the executed-case ring.
pub const NORMAL_CAP: usize = 65536;

/// Capacity of the failed-case ring.
pub const FAILED_CAP: usize = 65536;

/// Capacity of the crashed-case ring.
pub const CRASH_CAP: usize = 1024;

/// What every recorded case carries: its process-wide id, its title, and
/// the wall-clock time of the run, as a unix timestamp.
#[derive(Debug)]
pub struct TestCase {
    pub id: usize,
    pub title: String,
    pub test_time: i64,
}

/// A run that completed and contributed new coverage.
#[derive(Debug)]
pub struct ExecutedCase {
    pub meta: TestCase,
    /// The executed program, rendered as a script.
    pub p: String,
    /// Number of distinct blocks per call.
    pub block_num: Vec<usize>,
    /// Number of distinct branches per call.
    pub branch_num: Vec<usize>,
    /// New branches confirmed for this program.
    pub new_branch: usize,
    /// New blocks confirmed for this program.
    pub new_block: usize,
}

/// A run the agent reported as failed.
#[derive(Debug)]
pub struct FailedCase {
    pub meta: TestCase,
    pub p: String,
    pub reason: String,
}

/// A run that crashed the guest kernel.
#[derive(Debug)]
pub struct CrashedCase {
    pub meta: TestCase,
    pub p: String,
    /// Whether a second run reproduced the crash.
    pub repo: bool,
    pub crash: Crash,
}

/// The title of a record: group name, name of the program's last call and
/// the case id, joined by underscores. A name the target does not declare
/// renders as nothing.
pub open spec fn spec_title(t: &Target, gid: u64, fid: u64, id: nat) -> Seq<char> {
    group_or_empty(t, gid) + seq!['_'] + name_or_empty(t, fid) + seq!['_'] + dec_digits(id)
}

/// The name of `gid`, or nothing where the target does not declare it.
pub open spec fn group_or_empty(t: &Target, gid: u64) -> Seq<char> {
    match t.spec_group_name(gid) {
        Some(name) => name,
        None => Seq::empty(),
    }
}

/// Relies on chrono's `Local::now`: the current local wall-clock time,
/// reduced to its unix timestamp. Nothing is assumed of the value.
#[verifier::external_body]
fn now_timestamp() -> (t: i64) {
    chrono::Local::now().timestamp()
}

/// The process-wide record of test cases.
pub struct TestCaseRecord {
    normal: RingQueue<ExecutedCase>,
    failed: RingQueue<FailedCase>,
    crash: RingQueue<CrashedCase>,
    target: Target,
    id_n: usize,
    normal_num: usize,
    failed_num: usize,
    crashed_num: usize,
}

impl TestCaseRecord {
    pub closed spec fn spec_normal(&self) -> Seq<ExecutedCase> {
        self.normal@
    }

    pub closed spec fn spec_failed(&self) -> Seq<FailedCase> {
        self.failed@
    }

    pub closed spec fn spec_crash(&self) -> Seq<CrashedCase> {
        self.crash@
    }

    pub closed spec fn spec_target(&self) -> Target {
        self.target
    }

    pub closed spec fn spec_id(&self) -> nat {
        self.id_n as nat
    }

    pub closed spec fn spec_counts(&self) -> (nat, nat, nat) {
        (self.normal_num as nat, self.failed_num as nat, self.crashed_num as nat)
    }

    /// The rings are well-formed at their fixed capacities, the id counter
    /// counts every insertion, and every recorded id was assigned before
    /// the counter's current value: ids strictly increase across
    /// insertions.
    pub closed spec fn wf(&self) -> bool {
        &&& self.normal.wf() && self.normal.spec_cap() == NORMAL_CAP
        &&& self.failed.wf() && self.failed.spec_cap() == FAILED_CAP
        &&& self.crash.wf() && self.crash.spec_cap() == CRASH_CAP
        &&& self.id_n == self.normal_num + self.failed_num + self.crashed_num
        &&& forall|k: int|
            0 <= k < self.normal@.len() ==> (#[trigger] self.normal@[k]).meta.id < self.id_n
        &&& forall|k: int|
            0 <= k < self.failed@.len() ==> (#[trigger] self.failed@[k]).meta.id < self.id_n
        &&& forall|k: int|
            0 <= k < self.crash@.len() ==> (#[trigger] self.crash@[k]).meta.id < self.id_n
    }

    /// Every recorded id is below the id counter.
    pub proof fn lemma_ids_bounded(&self)
        requires
            self.wf(),
        ensures
            forall|k: int|
                0 <= k < self.spec_normal().len() ==> (#[trigger] self.spec_normal()[k]).meta.id
                    < self.spec_id(),
            forall|k: int|
                0 <= k < self.spec_failed().len() ==> (#[trigger] self.spec_failed()[k]).meta.id
                    < self.spec_id(),
            forall|k: int|
                0 <= k < self.spec_crash().len() ==> (#[trigger] self.spec_crash()[k]).meta.id
                    < self.spec_id(),
    {
    }

    pub fn new(target: Target) -> (r: TestCaseRecord)
        ensures
            r.wf(),
            r.spec_normal() == Seq::<ExecutedCase>::empty(),
            r.spec_failed() == Seq::<FailedCase>::empty(),
            r.spec_crash() == Seq::<CrashedCase>::empty(),
            r.spec_id() == 0,
            r.spec_counts() == (0nat, 0nat, 0nat),
            r.spec_target() == target,
    {
        TestCaseRecord {
            normal: RingQueue::new(NORMAL_CAP),
            failed: RingQueue::new(FAILED_CAP),
            crash: RingQueue::new(CRASH_CAP),
            target,
            id_n: 0,
            normal_num: 0,
            failed_num: 0,
            crashed_num: 0,
        }
    }

    /// Render the title of a case for program `p` at id `id`: a pure
    /// function of the target, the program's group and last call, and the
    /// id.
    pub fn title_of(&self, p: &Prog, id: usize) -> (s: String)
        requires
            p.calls@.len() > 0,
        ensures
            s@ == spec_title(&self.spec_target(), p.gid, p.calls@.last().fid, id as nat),
    {
        let mut s = String::new();
        match self.target.group_name_of(p.gid) {
            Some(name) => {
                let part: &str = name.as_str();
                s.append(part);
            },
            None => {},
        }
        s.append("_");
        match self.target.fn_name_of(p.last_call().fid) {
            Some(name) => {
                let part: &str = name.as_str();
                s.append(part);
            },
            None => {},
        }
        s.append("_");
        let digits = fmt_u64(id as u64);
        s.append(digits.as_str());
        proof {
            reveal_strlit("_");
            assert(("_")@ =~= seq!['_']);
            assert(dec_digits((id as u64) as nat) == dec_digits(id as nat));
            assert(s@ =~= spec_title(&self.spec_target(), p.gid, p.calls@.last().fid, id as nat));
        }
        s
    }

    /// Record a run that contributed new coverage.
    pub fn insert_executed(
        &mut self,
        p: &Prog,
        blocks: &Vec<Vec<Block>>,
        branches: &Vec<Vec<Branch>>,
        new_block: &CovSet,
        new_branch: &CovSet,
    )
        requires
            old(self).wf(),
            old(self).spec_id() < usize::MAX,
            p.calls@.len() > 0,
            new_block.wf(),
            new_branch.wf(),
        ensures
            final(self).wf(),
            final(self).spec_target() == old(self).spec_target(),
            final(self).spec_id() == old(self).spec_id() + 1,
            final(self).spec_counts() == (
                (old(self).spec_counts().0 + 1) as nat,
                old(self).spec_counts().1,
                old(self).spec_counts().2,
            ),
            final(self).spec_failed() == old(self).spec_failed(),
            final(self).spec_crash() == old(self).spec_crash(),
            final(self).spec_normal() == ring_push(
                old(self).spec_normal(),
                NORMAL_CAP as nat,
                final(self).spec_normal().last(),
            ),
            ({
                let case = final(self).spec_normal().last();
                &&& case.meta.id == old(self).spec_id()
                &&& case.meta.title@ == spec_title(
                    &old(self).spec_target(),
                    p.gid,
                    p.calls@.last().fid,
                    old(self).spec_id(),
                )
                &&& case.p@ == spec_script(&old(self).spec_target(), p.calls@)
                &&& case.block_num@.len() == blocks@.len()
                &&& forall|k: int|
                    0 <= k < blocks@.len() ==> #[trigger] case.block_num@[k] == blocks@[k]@.len()
                &&& case.branch_num@.len() == branches@.len()
                &&& forall|k: int|
                    0 <= k < branches@.len() ==> #[trigger] case.branch_num@[k]
                        == branches@[k]@.len()
                &&& case.new_block == new_block@.len()
                &&& case.new_branch == new_branch@.len()
            }),
    {
        let mut block_num: Vec<usize> = Vec::new();
        let mut i: usize = 0;
        while i < blocks.len()
            invariant
                i <= blocks@.len(),
                block_num@.len() == i,
                forall|k: int| 0 <= k < i ==> #[trigger] block_num@[k] == blocks@[k]@.len(),
            decreases blocks@.len() - i,
        {
            block_num.push(blocks[i].len());
            i += 1;
        }
        let mut branch_num: Vec<usize> = Vec::new();
        let mut i: usize = 0;
        while i < branches.len()
            invariant
                i <= branches@.len(),
                branch_num@.len() == i,
                forall|k: int| 0 <= k < i ==> #[trigger] branch_num@[k] == branches@[k]@.len(),
            decreases branches@.len() - i,
        {
            branch_num.push(branches[i].len());
            i += 1;
        }
        let id = self.next_id();
        let title = self.title_of(p, id);
        let script = script_of(&self.target, p);
        let case = ExecutedCase {
            meta: TestCase { id, title, test_time: now_timestamp() },
            p: script,
            block_num,
            branch_num,
            new_branch: new_branch.len(),
            new_block: new_block.len(),
        };
        let ghost gcase = case;
        let ghost pred = |c: ExecutedCase| c.meta.id < self.id_n;
        proof {
            assert forall|k: int| 0 <= k < self.normal@.len() implies #[trigger] pred(
                self.normal@[k],
            ) by {
                assert(self.normal@[k].meta.id < old(self).id_n);
            }
            lemma_ring_push_preserves(self.normal@, NORMAL_CAP as nat, gcase, pred);
        }
        self.normal.push(case);
        self.normal_num = self.normal_num + 1;
        proof {
            assert(self.normal@.last() == gcase);
        }
    }

    /// Record a failed run.
    pub fn insert_failed(&mut self, p: &Prog, reason: &str)
        requires
            old(self).wf(),
            old(self).spec_id() < usize::MAX,
            p.calls@.len() > 0,
        ensures
            final(self).wf(),
            final(self).spec_target() == old(self).spec_target(),
            final(self).spec_id() == old(self).spec_id() + 1,
            final(self).spec_counts() == (
                old(self).spec_counts().0,
                (old(self).spec_counts().1 + 1) as nat,
                old(self).spec_counts().2,
            ),
            final(self).spec_normal() == old(self).spec_normal(),
            final(self).spec_crash() == old(self).spec_crash(),
            final(self).spec_failed() == ring_push(
                old(self).spec_failed(),
                FAILED_CAP as nat,
                final(self).spec_failed().last(),
            ),
            ({
                let case = final(self).spec_failed().last();
                &&& case.meta.id == old(self).spec_id()
                &&& case.meta.title@ == spec_title(
                    &old(self).spec_target(),
                    p.gid,
                    p.calls@.last().fid,
                    old(self).spec_id(),
                )
                &&& case.p@ == spec_script(&old(self).spec_target(), p.calls@)
                &&& case.reason@ == reason@
            }),
    {
        let id = self.next_id();
        let title = self.title_of(p, id);
        let script = script_of(&self.target, p);
        let case = FailedCase {
            meta: TestCase { id, title, test_time: now_timestamp() },
            p: script,
            reason: reason.to_owned(),
        };
        let ghost gcase = case;
        let ghost pred = |c: FailedCase| c.meta.id < self.id_n;
        proof {
            assert forall|k: int| 0 <= k < self.failed@.len() implies #[trigger] pred(
                self.failed@[k],
            ) by {
                assert(self.failed@[k].meta.id < old(self).id_n);
            }
            lemma_ring_push_preserves(self.failed@, FAILED_CAP as nat, gcase, pred);
        }
        self.failed.push(case);
        self.failed_num = self.failed_num + 1;
        proof {
            assert(self.failed@.last() == gcase);
        }
    }

    /// Record a crash; the built case is also returned so that the caller
    /// can persist it and send the crash report.
    pub fn insert_crash(&mut self, p: &Prog, crash: Crash, repo: bool) -> (rc: CrashedCase)
        requires
            old(self).wf(),
            old(self).spec_id() < usize::MAX,
            p.calls@.len() > 0,
        ensures
            final(self).wf(),
            final(self).spec_target() == old(self).spec_target(),
            final(self).spec_id() == old(self).spec_id() + 1,
            final(self).spec_counts() == (
                old(self).spec_counts().0,
                old(self).spec_counts().1,
                (old(self).spec_counts().2 + 1) as nat,
            ),
            final(self).spec_normal() == old(self).spec_normal(),
            final(self).spec_failed() == old(self).spec_failed(),
            final(self).spec_crash() == ring_push(
                old(self).spec_crash(),
                CRASH_CAP as nat,
                final(self).spec_crash().last(),
            ),
            ({
                let case = final(self).spec_crash().last();
                &&& case.meta.id == old(self).spec_id()
                &&& case.meta.title@ == spec_title(
                    &old(self).spec_target(),
                    p.gid,
                    p.calls@.last().fid,
                    old(self).spec_id(),
                )
                &&& case.p@ == spec_script(&old(self).spec_target(), p.calls@)
                &&& case.repo == repo
                &&& case.crash.inner@ == crash.inner@
                &&& rc.meta.id == case.meta.id
                &&& rc.meta.title@ == case.meta.title@
                &&& rc.meta.test_time == case.meta.test_time
                &&& rc.p@ == case.p@
                &&& rc.repo == repo
                &&& rc.crash.inner@ == crash.inner@
            }),
    {
        let id = self.next_id();
        let title = self.title_of(p, id);
        let script = script_of(&self.target, p);
        let time = now_timestamp();
        let rc = CrashedCase {
            meta: TestCase { id, title: title.clone(), test_time: time },
            p: script.clone(),
            repo,
            crash: crash.clone(),
        };
        let case = CrashedCase {
            meta: TestCase { id, title, test_time: time },
            p: script,
            repo,
            crash,
        };
        let ghost gcase = case;
        let ghost pred = |c: CrashedCase| c.meta.id < self.id_n;
        proof {
            assert forall|k: int| 0 <= k < self.crash@.len() implies #[trigger] pred(
                self.crash@[k],
            ) by {
                assert(self.crash@[k].meta.id < old(self).id_n);
            }
            lemma_ring_push_preserves(self.crash@, CRASH_CAP as nat, gcase, pred);
        }
        self.crash.push(case);
        self.crashed_num = self.crashed_num + 1;
        proof {
            assert(self.crash@.last() == gcase);
        }
        rc
    }

    /// The running totals: executed, failed, crashed.
    pub fn len(&self) -> (r: (usize, usize, usize))
        ensures
            (r.0 as nat, r.1 as nat, r.2 as nat) == self.spec_counts(),
    {
        (self.normal_num, self.failed_num, self.crashed_num)
    }

    pub fn normal_len(&self) -> (n: usize)
        ensures
            n == self.spec_normal().len(),
    {
        self.normal.len()
    }

    /// The `i`-th oldest executed case.
    pub fn normal_get(&self, i: usize) -> (c: &ExecutedCase)
        requires
            i < self.spec_normal().len(),
        ensures
            *c == self.spec_normal()[i as int],
    {
        self.normal.get(i)
    }

    pub fn failed_len(&self) -> (n: usize)
        ensures
            n == self.spec_failed().len(),
    {
        self.failed.len()
    }

    /// The `i`-th oldest failed case.
    pub fn failed_get(&self, i: usize) -> (c: &FailedCase)
        requires
            i < self.spec_failed().len(),
        ensures
            *c == self.spec_failed()[i as int],
    {
        self.failed.get(i)
    }

    pub fn crash_len(&self) -> (n: usize)
        ensures
            n == self.spec_crash().len(),
    {
        self.crash.len()
    }

    /// The `i`-th oldest crashed case.
    pub fn crash_get(&self, i: usize) -> (c: &CrashedCase)
        requires
            i < self.spec_crash().len(),
        ensures
            *c == self.spec_crash()[i as int],
    {
        self.crash.get(i)
    }

    /// Allocate the next case id.
    fn next_id(&mut self) -> (id: usize)
        requires
            old(self).id_n < usize::MAX,
        ensures
            id == old(self).id_n,
            final(self).id_n == old(self).id_n + 1,
            final(self).normal == old(self).normal,
            final(self).failed == old(self).failed,
            final(self).crash == old(self).crash,
            final(self).target == old(self).target,
            final(self).normal_num == old(self).normal_num,
            final(self).failed_num == old(self).failed_num,
            final(self).crashed_num == old(self).crashed_num,
    {
        let id = self.id_n;
        self.id_n = self.id_n + 1;
        id
    }
}

} // verus!
