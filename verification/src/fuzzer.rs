//! The fuzzing worker: a state machine over the shared corpus, coverage
//! store and record.
//!
//! Everything the worker needs from the world — a generated program, the
//! outcome of executing one, a driver restart, the generator's verdict on
//! deleting a call — arrives as an [`Event`]; everything it wants done is
//! returned as an [`Action`]. The surrounding process runs the loop:
//! perform the action, feed the outcome back in. All decisions — what is
//! recorded, what enters the corpus, what coverage is merged, when a
//! program is minimized and re-run — are taken here.

use crate::corpus::Corpus;
use crate::codec::prog_rep;
use crate::exec::{Crash, ExecResult};
use crate::feedback::{
    block_ids, branch_ids, cook_raw_block, strictly_sorted, trace_branches, Block, Branch, CovSet,
    FeedBack,
};
use crate::prog::{spec_script, Prog, Target};
use crate::report::{
    spec_title, CrashedCase, TestCaseRecord, CRASH_CAP, FAILED_CAP, NORMAL_CAP,
};
use crate::ring::ring_push;
use crate::text::is_memleak;
use vstd::prelude::*;

verus! {

/// The `sysexits` code for an internal software error, used when the
/// worker aborts on an unexpected crash or on a protocol violation.
pub const EXIT_SOFTWARE: i32 = 70;

/// The blocks of one raw trace.
pub open spec fn block_set(trace: Seq<u64>) -> Set<u64> {
    trace.to_set()
}

/// The branches of one raw trace.
pub open spec fn branch_set(trace: Seq<u64>) -> Set<u64> {
    trace_branches(trace).to_set()
}

/// What the world reports back to the worker.
pub enum Event {
    /// The worker may begin.
    Start,
    /// The generator produced a program.
    Generated(Prog),
    /// Executing the requested program ended with this outcome.
    ExecDone(Result<ExecResult, Crash>),
    /// The driver was restarted.
    Restarted,
    /// Whether deleting the asked-about call is legal.
    RemoveAns(bool),
}

/// What the worker asks the world to do next.
pub enum Req {
    /// Generate a program.
    Gen,
    /// Execute this program.
    Exec(Prog),
    /// Restart the driver, then execute this program (crash reproduction).
    RestartExec(Prog),
    /// Restart the driver.
    Restart,
    /// May call `i` of the current minimization candidate be deleted?
    AskRemove(usize),
    /// Fatal: exit the process with this code.
    Abort(i32),
}

/// A step's outcome: a request, and what fell out of the step on the way.
pub struct Action {
    /// A crash case recorded this step, for the caller to persist and mail.
    pub crash_report: Option<CrashedCase>,
    /// A program whose analysis should refine the generator's tables.
    pub analyze: Option<Prog>,
    pub req: Req,
}

/// The minimization context: the program under analysis, the prefix that
/// showed new coverage, the confirmed new coverage, and the candidate.
pub struct MinCtx {
    /// The program under analysis.
    pub p: Prog,
    /// Its first-run traces.
    pub raw: Vec<Vec<u64>>,
    /// The call index under analysis.
    pub idx: usize,
    /// The prefix of `p` that showed new coverage: minimization starts here.
    pub sub: Prog,
    /// Confirmed new blocks.
    pub nb: CovSet,
    /// Confirmed new branches.
    pub br: CovSet,
    /// The current minimization candidate.
    pub cur: Prog,
    /// The call up for deletion next.
    pub i_m: usize,
}

/// Where the worker stands and what it waits for.
pub enum Phase {
    /// Waiting for a program (or for the start signal).
    AwaitGen,
    /// Waiting for the outcome of executing `p`.
    AwaitExec { p: Prog },
    /// A crash is being reproduced: waiting for the second run of `p`.
    AwaitRepro { p: Prog, crash: Crash },
    /// Waiting for the driver to come back after a reproduced crash.
    AwaitRestart,
    /// Waiting for the confirmation run of `sub`, the prefix of `p` whose
    /// call `idx` showed new coverage on the first run.
    AwaitConfirm { p: Prog, raw: Vec<Vec<u64>>, idx: usize, sub: Prog, nb1: CovSet, br1: CovSet },
    /// Waiting for the verdict on deleting call `i_m` of the candidate.
    AwaitRemove { ctx: MinCtx },
    /// Waiting for the run of the candidate with a call deleted; `saved` is
    /// the candidate before the deletion.
    AwaitMinExec { ctx: MinCtx, saved: Prog },
    /// Waiting for the full run of the minimized program `minp`.
    AwaitFinalExec { ctx: MinCtx, minp: Prog },
    /// The worker aborted.
    Stopped,
}

/// One fuzzing worker's slice of the world: the shared stores and its own
/// phase.
pub struct Fuzzer {
    pub corpus: Corpus,
    pub feedback: FeedBack,
    pub record: TestCaseRecord,
}

/// A worker's private state: its seed list and its phase.
pub struct WorkerState {
    pub seeds: Vec<Prog>,
    pub seed_idx: usize,
    pub phase: Phase,
}

/// Minimization never lengthens the candidate and never loses the last
/// call: the candidate stays a program of the same group, no longer than
/// the prefix minimization started from, ending in the same call.
pub open spec fn min_shape(sub: Prog, cur: Prog) -> bool {
    &&& cur.calls@.len() >= 1
    &&& cur.calls@.len() <= sub.calls@.len()
    &&& cur.gid == sub.gid
    &&& cur.calls@.last() == sub.calls@.last()
}

pub open spec fn ctx_wf(ctx: MinCtx) -> bool {
    &&& ctx.sub.calls@.len() >= 1
    &&& ctx.nb.wf()
    &&& ctx.br.wf()
    &&& ctx.p.calls@.len() >= 1
    &&& (ctx.idx as int) < ctx.p.calls@.len()
    &&& min_shape(ctx.sub, ctx.cur)
}

impl WorkerState {
    /// The phase's internal bounds: minimization indices stay ahead of the
    /// last call, and every candidate keeps the shape minimization promises.
    pub open spec fn wf(&self) -> bool {
        &&& self.seed_idx <= self.seeds@.len()
        &&& match self.phase {
            Phase::AwaitGen => true,
            Phase::AwaitExec { p } => p.calls@.len() >= 1,
            Phase::AwaitRepro { p, crash } => p.calls@.len() >= 1,
            Phase::AwaitRestart => true,
            Phase::AwaitConfirm { p, raw, idx, sub, nb1, br1 } => {
                &&& p.calls@.len() >= 1
                &&& (idx as int) < p.calls@.len()
                &&& (idx as int) < raw@.len()
                &&& sub.gid == p.gid
                &&& sub.calls@ == p.calls@.take(idx + 1)
                &&& nb1.wf()
                &&& br1.wf()
            },
            Phase::AwaitRemove { ctx } => {
                &&& ctx_wf(ctx)
                &&& ctx.cur.calls@.len() >= 2
                &&& (ctx.i_m as int) < ctx.cur.calls@.len() - 1
            },
            Phase::AwaitMinExec { ctx, saved } => {
                &&& ctx_wf(ctx)
                &&& min_shape(ctx.sub, saved)
                &&& ctx.cur.calls@.len() + 1 == saved.calls@.len()
                &&& (ctx.i_m as int) <= ctx.cur.calls@.len() - 1
            },
            Phase::AwaitFinalExec { ctx, minp } => {
                &&& ctx_wf(ctx)
                &&& min_shape(ctx.sub, minp)
            },
            Phase::Stopped => true,
        }
    }

    pub fn new(seeds: Vec<Prog>) -> (w: WorkerState)
        ensures
            w.wf(),
            w.seeds@ == seeds@,
            w.seed_idx == 0,
            w.phase is AwaitGen,
    {
        WorkerState { seeds, seed_idx: 0, phase: Phase::AwaitGen }
    }
}

/// The first seed at or after `from` that holds at least one call, or the
/// end of the seed list.
pub open spec fn next_seed(seeds: Seq<Prog>, from: int) -> int
    decreases seeds.len() - from,
{
    if from < 0 || from >= seeds.len() {
        seeds.len() as int
    } else if seeds[from].calls@.len() > 0 {
        from
    } else {
        next_seed(seeds, from + 1)
    }
}

/// After finishing one program, the worker turns to the next: the next
/// non-empty seed if one is left, else a freshly generated program.
pub open spec fn picked(w1: WorkerState, w2: WorkerState, a: Action) -> bool {
    let j = next_seed(w1.seeds@, w1.seed_idx as int);
    &&& w2.seeds@ == w1.seeds@
    &&& if j < w1.seeds@.len() {
        &&& w2.seed_idx == j + 1
        &&& match w2.phase {
            Phase::AwaitExec { p } => p.same_as(&w1.seeds@[j]),
            _ => false,
        }
        &&& match a.req {
            Req::Exec(p) => p.same_as(&w1.seeds@[j]),
            _ => false,
        }
    } else {
        &&& w2.seed_idx == w1.seeds@.len()
        &&& w2.phase is AwaitGen
        &&& a.req is Gen
    }
}

/// The shared stores are untouched.
pub open spec fn shared_unchanged(f1: Fuzzer, f2: Fuzzer) -> bool {
    &&& f2.corpus@ == f1.corpus@
    &&& f2.feedback@.blocks == f1.feedback@.blocks
    &&& f2.feedback@.branches == f1.feedback@.branches
    &&& f2.record.spec_normal() == f1.record.spec_normal()
    &&& f2.record.spec_failed() == f1.record.spec_failed()
    &&& f2.record.spec_crash() == f1.record.spec_crash()
    &&& f2.record.spec_id() == f1.record.spec_id()
    &&& f2.record.spec_counts() == f1.record.spec_counts()
    &&& f2.record.spec_target() == f1.record.spec_target()
}

/// The step aborted the worker.
pub open spec fn aborted(w2: WorkerState, a: Action) -> bool {
    &&& w2.phase is Stopped
    &&& a.crash_report is None
    &&& a.analyze is None
    &&& match a.req {
        Req::Abort(code) => code == EXIT_SOFTWARE,
        _ => false,
    }
}

/// A failed run of `p` was recorded with `reason`; nothing else moved.
pub open spec fn failed_recorded(f1: Fuzzer, f2: Fuzzer, p: Prog, reason: Seq<char>) -> bool {
    let t = f1.record.spec_target();
    let case = f2.record.spec_failed().last();
    &&& f2.corpus@ == f1.corpus@
    &&& f2.feedback@.blocks == f1.feedback@.blocks
    &&& f2.feedback@.branches == f1.feedback@.branches
    &&& f2.record.spec_target() == t
    &&& f2.record.spec_id() == f1.record.spec_id() + 1
    &&& f2.record.spec_counts() == (
        f1.record.spec_counts().0,
        (f1.record.spec_counts().1 + 1) as nat,
        f1.record.spec_counts().2,
    )
    &&& f2.record.spec_normal() == f1.record.spec_normal()
    &&& f2.record.spec_crash() == f1.record.spec_crash()
    &&& f2.record.spec_failed() == ring_push(f1.record.spec_failed(), FAILED_CAP as nat, case)
    &&& case.meta.id == f1.record.spec_id()
    &&& case.meta.title@ == spec_title(&t, p.gid, p.calls@.last().fid, f1.record.spec_id())
    &&& case.p@ == spec_script(&t, p.calls@)
    &&& case.reason@ == reason
}

/// A crash of `p` was recorded with the given reproduction verdict, and
/// the built case rides along on the action; nothing else moved.
pub open spec fn crash_recorded(
    f1: Fuzzer,
    f2: Fuzzer,
    a: Action,
    p: Prog,
    inner: Seq<char>,
    repo: bool,
) -> bool {
    let t = f1.record.spec_target();
    let case = f2.record.spec_crash().last();
    &&& f2.corpus@ == f1.corpus@
    &&& f2.feedback@.blocks == f1.feedback@.blocks
    &&& f2.feedback@.branches == f1.feedback@.branches
    &&& f2.record.spec_target() == t
    &&& f2.record.spec_id() == f1.record.spec_id() + 1
    &&& f2.record.spec_counts() == (
        f1.record.spec_counts().0,
        f1.record.spec_counts().1,
        (f1.record.spec_counts().2 + 1) as nat,
    )
    &&& f2.record.spec_normal() == f1.record.spec_normal()
    &&& f2.record.spec_failed() == f1.record.spec_failed()
    &&& f2.record.spec_crash() == ring_push(f1.record.spec_crash(), CRASH_CAP as nat, case)
    &&& case.meta.id == f1.record.spec_id()
    &&& case.meta.title@ == spec_title(&t, p.gid, p.calls@.last().fid, f1.record.spec_id())
    &&& case.p@ == spec_script(&t, p.calls@)
    &&& case.repo == repo
    &&& case.crash.inner@ == inner
    &&& match a.crash_report {
        Some(rc) => rc.meta.id == case.meta.id && rc.meta.title@ == case.meta.title@ && rc.repo
            == repo && rc.crash.inner@ == inner && rc.p@ == case.p@,
        None => false,
    }
}

/// Calls `start` up to (exclusive) `limit` of `p`'s first-run traces show
/// nothing new against the feedback store.
pub open spec fn nothing_new(fb: FeedBack, raw: Seq<Vec<u64>>, start: int, limit: int) -> bool {
    forall|j: int|
        start <= j < limit ==> (#[trigger] block_set(raw[j]@)).difference(fb@.blocks).is_empty()
            && branch_set(raw[j]@).difference(fb@.branches).is_empty()
}

/// The coverage-analysis walk over `p`'s traces, starting at call `start`:
/// the first call whose trace shows anything new (block or branch) against
/// the feedback store becomes a confirmation run of the corresponding
/// prefix of `p`; if none is left, the worker picks its next program. The
/// walk reads the store and changes nothing.
pub open spec fn analyzed_from(
    f1: Fuzzer,
    w1: WorkerState,
    p: Prog,
    raw: Vec<Vec<u64>>,
    start: int,
    w2: WorkerState,
    a: Action,
) -> bool {
    let limit = if raw@.len() <= p.calls@.len() {
        raw@.len() as int
    } else {
        p.calls@.len() as int
    };
    if nothing_new(f1.feedback, raw@, start, limit) {
        picked(w1, w2, a)
    } else {
        exists|i: int|
            #![trigger raw@[i]]
            {
                &&& start <= i < limit
                &&& nothing_new(f1.feedback, raw@, start, i)
                &&& !(block_set(raw@[i]@).difference(f1.feedback@.blocks).is_empty()
                    && branch_set(raw@[i]@).difference(f1.feedback@.branches).is_empty())
                &&& w2.seeds@ == w1.seeds@ && w2.seed_idx == w1.seed_idx
                &&& match w2.phase {
                    Phase::AwaitConfirm { p: p2, raw: raw2, idx, sub, nb1, br1 } => {
                        &&& p2.same_as(&p)
                        &&& raw2@ == raw@
                        &&& idx == i
                        &&& sub.gid == p.gid
                        &&& sub.calls@ == p.calls@.take(i + 1)
                        &&& nb1@ == block_set(raw@[i]@).difference(f1.feedback@.blocks)
                        &&& br1@ == branch_set(raw@[i]@).difference(f1.feedback@.branches)
                    },
                    _ => false,
                }
                &&& match a.req {
                    Req::Exec(q) => q.gid == p.gid && q.calls@ == p.calls@.take(i + 1),
                    _ => false,
                }
                &&& a.crash_report is None
            }
    }
}

/// Minimization goes on from the context: the next deletion question if
/// calls are left to try, else the full run of the final candidate.
pub open spec fn min_continued(ctx: MinCtx, w2: WorkerState, a: Action) -> bool {
    &&& a.crash_report is None
    &&& a.analyze is None
    &&& if (ctx.i_m as int) == ctx.cur.calls@.len() - 1 {
        &&& match w2.phase {
            Phase::AwaitFinalExec { ctx: c2, minp } => c2 == ctx && minp.same_as(&ctx.cur),
            _ => false,
        }
        &&& match a.req {
            Req::Exec(q) => q.same_as(&ctx.cur),
            _ => false,
        }
    } else {
        &&& match w2.phase {
            Phase::AwaitRemove { ctx: c2 } => c2 == ctx,
            _ => false,
        }
        &&& match a.req {
            Req::AskRemove(i) => i == ctx.i_m,
            _ => false,
        }
    }
}

/// The bookkeeping after the minimized program's full run: the case is
/// recorded with per-call distinct block and branch counts from `traces`,
/// the program joins the corpus, and the confirmed new coverage is merged
/// into the store.
pub open spec fn new_cov_booked(
    f1: Fuzzer,
    f2: Fuzzer,
    minp: Prog,
    traces: Seq<Vec<u64>>,
    nb: Set<u64>,
    br: Set<u64>,
) -> bool {
    let t = f1.record.spec_target();
    let case = f2.record.spec_normal().last();
    &&& f2.corpus@ == f1.corpus@.insert(prog_rep(minp))
    &&& f2.feedback@.blocks == f1.feedback@.blocks + nb
    &&& f2.feedback@.branches == f1.feedback@.branches + br
    &&& f2.record.spec_target() == t
    &&& f2.record.spec_id() == f1.record.spec_id() + 1
    &&& f2.record.spec_counts() == (
        (f1.record.spec_counts().0 + 1) as nat,
        f1.record.spec_counts().1,
        f1.record.spec_counts().2,
    )
    &&& f2.record.spec_failed() == f1.record.spec_failed()
    &&& f2.record.spec_crash() == f1.record.spec_crash()
    &&& f2.record.spec_normal() == ring_push(f1.record.spec_normal(), NORMAL_CAP as nat, case)
    &&& case.meta.id == f1.record.spec_id()
    &&& case.meta.title@ == spec_title(&t, minp.gid, minp.calls@.last().fid, f1.record.spec_id())
    &&& case.p@ == spec_script(&t, minp.calls@)
    &&& case.new_block == nb.len()
    &&& case.new_branch == br.len()
    &&& case.block_num@.len() == traces.len()
    &&& forall|k: int|
        0 <= k < traces.len() ==> (#[trigger] case.block_num@[k]) == block_set(traces[k]@).len()
    &&& case.branch_num@.len() == traces.len()
    &&& forall|k: int|
        0 <= k < traces.len() ==> (#[trigger] case.branch_num@[k]) == branch_set(traces[k]@).len()
}

/// The full transition relation of one worker step: what each phase does
/// with each event, exactly.
pub open spec fn step_spec(
    f1: Fuzzer,
    w1: WorkerState,
    ev: Event,
    f2: Fuzzer,
    w2: WorkerState,
    a: Action,
) -> bool {
    match w1.phase {
        Phase::AwaitGen => match ev {
            Event::Start => shared_unchanged(f1, f2) && picked(w1, w2, a) && a.analyze is None
                && a.crash_report is None,
            Event::Generated(p) => {
                &&& shared_unchanged(f1, f2)
                &&& a.analyze is None
                &&& a.crash_report is None
                &&& w2.seeds@ == w1.seeds@ && w2.seed_idx == w1.seed_idx
                &&& if p.calls@.len() == 0 {
                    w2.phase is AwaitGen && a.req is Gen
                } else {
                    &&& match w2.phase {
                        Phase::AwaitExec { p: q } => q.same_as(&p),
                        _ => false,
                    }
                    &&& match a.req {
                        Req::Exec(q) => q.same_as(&p),
                        _ => false,
                    }
                }
            },
            _ => shared_unchanged(f1, f2) && aborted(w2, a),
        },
        Phase::AwaitExec { p } => match ev {
            Event::ExecDone(r) => match r {
                Ok(ExecResult::Okay(raw)) => {
                    &&& shared_unchanged(f1, f2)
                    &&& a.analyze is None
                    &&& analyzed_from(f1, w1, p, raw, 0, w2, a)
                },
                Ok(ExecResult::Failed(reason)) => {
                    &&& failed_recorded(f1, f2, p, reason@)
                    &&& picked(w1, w2, a)
                    &&& a.analyze is None
                    &&& a.crash_report is None
                },
                Err(crash) => {
                    &&& shared_unchanged(f1, f2)
                    &&& a.analyze is None
                    &&& a.crash_report is None
                    &&& if is_memleak(crash.inner@) {
                        picked(w1, w2, a)
                    } else {
                        &&& w2.seeds@ == w1.seeds@ && w2.seed_idx == w1.seed_idx
                        &&& match w2.phase {
                            Phase::AwaitRepro { p: q, crash: c } => q.same_as(&p) && c.inner@
                                == crash.inner@,
                            _ => false,
                        }
                        &&& match a.req {
                            Req::RestartExec(q) => q.same_as(&p),
                            _ => false,
                        }
                    }
                },
            },
            _ => shared_unchanged(f1, f2) && aborted(w2, a),
        },
        Phase::AwaitRepro { p, crash } => match ev {
            Event::ExecDone(r) => match r {
                Ok(second) => {
                    &&& crash_recorded(f1, f2, a, p, crash.inner@, false)
                    &&& picked(w1, w2, a)
                    &&& a.analyze is None
                },
                Err(crash2) => {
                    &&& crash_recorded(f1, f2, a, p, crash2.inner@, true)
                    &&& a.analyze is None
                    &&& w2.seeds@ == w1.seeds@ && w2.seed_idx == w1.seed_idx
                    &&& w2.phase is AwaitRestart
                    &&& a.req is Restart
                },
            },
            _ => shared_unchanged(f1, f2) && aborted(w2, a),
        },
        Phase::AwaitRestart => match ev {
            Event::Restarted => shared_unchanged(f1, f2) && picked(w1, w2, a) && a.analyze is None
                && a.crash_report is None,
            _ => shared_unchanged(f1, f2) && aborted(w2, a),
        },
        Phase::AwaitConfirm { p, raw, idx, sub, nb1, br1 } => match ev {
            Event::ExecDone(r) => match r {
                Ok(ExecResult::Okay(raw2)) => {
                    &&& shared_unchanged(f1, f2)
                    &&& a.analyze is None
                    &&& if raw2@.len() != idx + 1 {
                        analyzed_from(f1, w1, p, raw, idx + 1, w2, a) && a.crash_report is None
                    } else {
                        let nb = nb1@.intersect(
                            block_set(raw2@[idx as int]@).difference(f1.feedback@.blocks),
                        );
                        let br = br1@.intersect(
                            branch_set(raw2@[idx as int]@).difference(f1.feedback@.branches),
                        );
                        if nb.is_empty() && br.is_empty() {
                            analyzed_from(f1, w1, p, raw, idx + 1, w2, a) && a.crash_report
                                is None
                        } else {
                            &&& a.crash_report is None
                            &&& w2.seeds@ == w1.seeds@ && w2.seed_idx == w1.seed_idx
                            &&& if sub.calls@.len() == 1 {
                                &&& match w2.phase {
                                    Phase::AwaitFinalExec { ctx, minp } => {
                                        &&& confirm_ctx(ctx, p, raw, idx, sub, nb, br)
                                        &&& minp.same_as(&sub)
                                    },
                                    _ => false,
                                }
                                &&& match a.req {
                                    Req::Exec(q) => q.same_as(&sub),
                                    _ => false,
                                }
                            } else {
                                &&& match w2.phase {
                                    Phase::AwaitRemove { ctx } => {
                                        &&& confirm_ctx(ctx, p, raw, idx, sub, nb, br)
                                        &&& ctx.cur.same_as(&sub)
                                        &&& ctx.i_m == 0
                                    },
                                    _ => false,
                                }
                                &&& match a.req {
                                    Req::AskRemove(i) => i == 0,
                                    _ => false,
                                }
                            }
                        }
                    }
                },
                Ok(ExecResult::Failed(reason)) => {
                    &&& shared_unchanged(f1, f2)
                    &&& a.analyze is None
                    &&& a.crash_report is None
                    &&& analyzed_from(f1, w1, p, raw, idx + 1, w2, a)
                },
                Err(crash) => {
                    &&& shared_unchanged(f1, f2)
                    &&& if is_memleak(crash.inner@) {
                        &&& a.analyze is None
                        &&& a.crash_report is None
                        &&& analyzed_from(f1, w1, p, raw, idx + 1, w2, a)
                    } else {
                        aborted(w2, a)
                    }
                },
            },
            _ => shared_unchanged(f1, f2) && aborted(w2, a),
        },
        Phase::AwaitRemove { ctx } => match ev {
            Event::RemoveAns(legal) => {
                &&& shared_unchanged(f1, f2)
                &&& a.analyze is None
                &&& a.crash_report is None
                &&& w2.seeds@ == w1.seeds@ && w2.seed_idx == w1.seed_idx
                &&& if legal {
                    &&& match w2.phase {
                        Phase::AwaitMinExec { ctx: c2, saved } => {
                            &&& saved.same_as(&ctx.cur)
                            &&& c2.p == ctx.p && c2.raw == ctx.raw && c2.idx == ctx.idx
                            &&& c2.sub == ctx.sub && c2.nb == ctx.nb && c2.br == ctx.br
                            &&& c2.i_m == ctx.i_m
                            &&& c2.cur.gid == ctx.cur.gid
                            &&& c2.cur.calls@ == ctx.cur.calls@.remove(ctx.i_m as int)
                        },
                        _ => false,
                    }
                    &&& match a.req {
                        Req::Exec(q) => q.gid == ctx.cur.gid && q.calls@ == ctx.cur.calls@.remove(
                            ctx.i_m as int,
                        ),
                        _ => false,
                    }
                } else {
                    min_continued(
                        MinCtx { i_m: (ctx.i_m + 1) as usize, ..ctx },
                        w2,
                        a,
                    ) && w2.seeds@ == w1.seeds@
                }
            },
            _ => shared_unchanged(f1, f2) && aborted(w2, a),
        },
        Phase::AwaitMinExec { ctx, saved } => match ev {
            Event::ExecDone(r) => match r {
                Ok(ExecResult::Okay(cover)) => {
                    let keep = cover@.len() > 0 && {
                        let nbm = block_set(cover@.last()@).difference(f1.feedback@.blocks);
                        !(nbm.is_empty() || nbm.intersect(ctx.nb@).is_empty())
                    };
                    &&& shared_unchanged(f1, f2)
                    &&& w2.seeds@ == w1.seeds@ && w2.seed_idx == w1.seed_idx
                    &&& if keep {
                        min_continued(ctx, w2, a)
                    } else {
                        min_continued(
                            MinCtx { cur: saved, i_m: (ctx.i_m + 1) as usize, ..ctx },
                            w2,
                            a,
                        )
                    }
                },
                Ok(ExecResult::Failed(reason)) => {
                    &&& shared_unchanged(f1, f2)
                    &&& min_ended_reverted(ctx, saved, w1, w2, a)
                },
                Err(crash) => {
                    &&& shared_unchanged(f1, f2)
                    &&& if is_memleak(crash.inner@) {
                        min_ended_reverted(ctx, saved, w1, w2, a)
                    } else {
                        aborted(w2, a)
                    }
                },
            },
            _ => shared_unchanged(f1, f2) && aborted(w2, a),
        },
        Phase::AwaitFinalExec { ctx, minp } => match ev {
            Event::ExecDone(r) => {
                let aborting = match r {
                    Err(crash) => !is_memleak(crash.inner@),
                    _ => false,
                };
                if aborting {
                    shared_unchanged(f1, f2) && aborted(w2, a)
                } else {
                    let traces = match r {
                        Ok(ExecResult::Okay(rf)) => rf@,
                        _ => Seq::<Vec<u64>>::empty(),
                    };
                    &&& new_cov_booked(f1, f2, minp, traces, ctx.nb@, ctx.br@)
                    &&& match a.analyze {
                        Some(q) => q.same_as(&ctx.sub),
                        None => false,
                    }
                    &&& a.crash_report is None
                    &&& analyzed_from(f2, w1, ctx.p, ctx.raw, ctx.idx + 1, w2, a)
                }
            },
            _ => shared_unchanged(f1, f2) && aborted(w2, a),
        },
        Phase::Stopped => shared_unchanged(f1, f2) && aborted(w2, a),
    }
}

/// The minimization context built when new coverage was confirmed at call
/// `idx`.
pub open spec fn confirm_ctx(
    ctx: MinCtx,
    p: Prog,
    raw: Vec<Vec<u64>>,
    idx: usize,
    sub: Prog,
    nb: Set<u64>,
    br: Set<u64>,
) -> bool {
    &&& ctx.p.same_as(&p)
    &&& ctx.raw@ == raw@
    &&& ctx.idx == idx
    &&& ctx.sub.same_as(&sub)
    &&& ctx.nb@ == nb
    &&& ctx.br@ == br
}

/// A failed (or leak-crashed) run of a shortened candidate ends
/// minimization: the deletion is taken back and the previous candidate is
/// run in full.
pub open spec fn min_ended_reverted(
    ctx: MinCtx,
    saved: Prog,
    w1: WorkerState,
    w2: WorkerState,
    a: Action,
) -> bool {
    &&& a.analyze is None
    &&& a.crash_report is None
    &&& w2.seeds@ == w1.seeds@ && w2.seed_idx == w1.seed_idx
    &&& match w2.phase {
        Phase::AwaitFinalExec { ctx: c2, minp } => {
            &&& c2.p == ctx.p && c2.raw == ctx.raw && c2.idx == ctx.idx
            &&& c2.sub == ctx.sub && c2.nb == ctx.nb && c2.br == ctx.br
            &&& minp.same_as(&saved)
        },
        _ => false,
    }
    &&& match a.req {
        Req::Exec(q) => q.same_as(&saved),
        _ => false,
    }
}

impl Fuzzer {
    pub open spec fn wf(&self) -> bool {
        self.corpus.wf() && self.feedback.wf() && self.record.wf()
    }

    pub fn new(target: Target) -> (f: Fuzzer)
        ensures
            f.wf(),
            f.corpus@ == Set::<(u64, Seq<u64>)>::empty(),
            f.feedback@.blocks == Set::<u64>::empty(),
            f.feedback@.branches == Set::<u64>::empty(),
            f.record.spec_id() == 0,
            f.record.spec_counts() == (0nat, 0nat, 0nat),
            f.record.spec_normal() == Seq::<crate::report::ExecutedCase>::empty(),
            f.record.spec_failed() == Seq::<crate::report::FailedCase>::empty(),
            f.record.spec_crash() == Seq::<CrashedCase>::empty(),
            f.record.spec_target() == target,
    {
        Fuzzer {
            corpus: Corpus::new(),
            feedback: FeedBack::new(),
            record: TestCaseRecord::new(target),
        }
    }

    /// Walk `p`'s traces from call `start` looking for new coverage; on a
    /// hit, hand out the confirmation run, else pick the next program.
    fn analyze_from(&self, w: &mut WorkerState, p: Prog, raw: Vec<Vec<u64>>, start: usize) -> (a:
        Action)
        requires
            self.feedback.wf(),
            old(w).wf(),
            p.calls@.len() >= 1,
        ensures
            final(w).wf(),
            analyzed_from(*self, *old(w), p, raw, start as int, *final(w), a),
            a.analyze is None,
            a.crash_report is None,
    {
        let plen = p.len();
        let rlen = raw.len();
        let limit = if rlen <= plen {
            rlen
        } else {
            plen
        };
        let mut i = start;
        while i < limit
            invariant
                self.feedback.wf(),
                p.calls@.len() >= 1,
                plen == p.calls@.len(),
                rlen == raw@.len(),
                limit == if rlen <= plen {
                    rlen
                } else {
                    plen
                },
                start <= i,
                i <= limit || i == start,
                w == old(w),
                old(w).wf(),
                nothing_new(self.feedback, raw@, start as int, i as int),
            decreases limit - i,
        {
            let tr: &Vec<u64> = &raw[i];
            let (blocks, branches) = cook_raw_block(tr.as_slice());
            let nb1 = self.feedback.diff_block(blocks.as_slice());
            let br1 = self.feedback.diff_branch(branches.as_slice());
            proof {
                assert(nb1@ == block_set(raw@[i as int]@).difference(self.feedback@.blocks));
                assert(br1@ == branch_set(raw@[i as int]@).difference(self.feedback@.branches));
            }
            if nb1.is_empty() && br1.is_empty() {
                proof {
                    assert forall|j: int| start <= j < i + 1 implies (#[trigger] block_set(
                        raw@[j]@,
                    )).difference(self.feedback@.blocks).is_empty() && branch_set(
                        raw@[j]@,
                    ).difference(self.feedback@.branches).is_empty() by {
                        if j < i {
                            assert(nothing_new(self.feedback, raw@, start as int, i as int));
                        }
                    }
                }
                i += 1;
            } else {
                let sub = p.sub_prog(i);
                let subq = sub.clone();
                let ghost ii = i as int;
                let ghost graw = raw@;
                let ghost gfb = self.feedback;
                w.phase = Phase::AwaitConfirm { p, raw, idx: i, sub, nb1, br1 };
                proof {
                    assert(!(block_set(graw[ii]@).difference(gfb@.blocks).is_empty()
                        && branch_set(graw[ii]@).difference(gfb@.branches).is_empty()));
                }
                return Action { crash_report: None, analyze: None, req: Req::Exec(subq) };
            }
        }
        pick_next(w)
    }
}

/// Move to the next program: the next non-empty seed, else generation.
fn pick_next(w: &mut WorkerState) -> (a: Action)
    requires
        old(w).wf(),
    ensures
        final(w).wf(),
        picked(*old(w), *final(w), a),
        a.analyze is None,
        a.crash_report is None,
{
    let ghost start = old(w).seed_idx as int;
    while w.seed_idx < w.seeds.len()
        invariant
            w.seeds@ == old(w).seeds@,
            start == old(w).seed_idx as int,
            old(w).seed_idx <= w.seed_idx,
            w.seed_idx <= w.seeds@.len(),
            next_seed(w.seeds@, start) == next_seed(w.seeds@, w.seed_idx as int),
        decreases w.seeds@.len() - w.seed_idx,
    {
        let j = w.seed_idx;
        if w.seeds[j].len() > 0 {
            proof {
                assert(next_seed(w.seeds@, j as int) == j as int);
            }
            let p = w.seeds[j].clone();
            let p2 = p.clone();
            w.seed_idx = j + 1;
            w.phase = Phase::AwaitExec { p };
            return Action { crash_report: None, analyze: None, req: Req::Exec(p2) };
        }
        proof {
            assert(next_seed(w.seeds@, j as int) == next_seed(w.seeds@, j + 1));
        }
        w.seed_idx = j + 1;
    }
    proof {
        assert(next_seed(w.seeds@, w.seed_idx as int) == w.seeds@.len());
    }
    w.phase = Phase::AwaitGen;
    Action { crash_report: None, analyze: None, req: Req::Gen }
}

/// Go on minimizing from `ctx`: ask about the next call, or run the final
/// candidate in full.
fn continue_min(w: &mut WorkerState, ctx: MinCtx) -> (a: Action)
    requires
        old(w).wf(),
        ctx_wf(ctx),
        (ctx.i_m as int) <= ctx.cur.calls@.len() - 1,
    ensures
        final(w).wf(),
        min_continued(ctx, *final(w), a),
        final(w).seeds@ == old(w).seeds@,
        final(w).seed_idx == old(w).seed_idx,
{
    if ctx.i_m == ctx.cur.len() - 1 {
        let minp = ctx.cur.clone();
        let q = minp.clone();
        w.phase = Phase::AwaitFinalExec { ctx, minp };
        Action { crash_report: None, analyze: None, req: Req::Exec(q) }
    } else {
        let i = ctx.i_m;
        w.phase = Phase::AwaitRemove { ctx };
        Action { crash_report: None, analyze: None, req: Req::AskRemove(i) }
    }
}

impl Fuzzer {
    /// One step of the worker: consume the event the last request asked
    /// for, update the shared stores as the fuzzing policy demands, and
    /// return the next request.
    pub fn step(&mut self, w: &mut WorkerState, ev: Event) -> (a: Action)
        requires
            old(self).wf(),
            old(w).wf(),
            old(self).record.spec_id() < usize::MAX,
        ensures
            final(self).wf(),
            final(w).wf(),
            final(self).record.spec_id() <= old(self).record.spec_id() + 1,
            step_spec(*old(self), *old(w), ev, *final(self), *final(w), a),
    {
        let mut ph = Phase::Stopped;
        core::mem::swap(&mut ph, &mut w.phase);
        match ph {
            Phase::AwaitGen => match ev {
                Event::Start => pick_next(w),
                Event::Generated(p) => {
                    if p.len() == 0 {
                        w.phase = Phase::AwaitGen;
                        Action { crash_report: None, analyze: None, req: Req::Gen }
                    } else {
                        let q = p.clone();
                        w.phase = Phase::AwaitExec { p };
                        Action { crash_report: None, analyze: None, req: Req::Exec(q) }
                    }
                },
                _ => abort_worker(w),
            },
            Phase::AwaitExec { p } => match ev {
                Event::ExecDone(r) => match r {
                    Ok(ExecResult::Okay(raw)) => self.analyze_from(w, p, raw, 0),
                    Ok(ExecResult::Failed(reason)) => {
                        self.record.insert_failed(&p, reason.as_str());
                        pick_next(w)
                    },
                    Err(crash) => {
                        if crash.is_leak() {
                            pick_next(w)
                        } else {
                            let q = p.clone();
                            w.phase = Phase::AwaitRepro { p, crash };
                            Action { crash_report: None, analyze: None, req: Req::RestartExec(q) }
                        }
                    },
                },
                _ => abort_worker(w),
            },
            Phase::AwaitRepro { p, crash } => match ev {
                Event::ExecDone(r) => match r {
                    Ok(second) => {
                        let rc = self.record.insert_crash(&p, crash, false);
                        let mut a = pick_next(w);
                        a.crash_report = Some(rc);
                        a
                    },
                    Err(crash2) => {
                        let rc = self.record.insert_crash(&p, crash2, true);
                        w.phase = Phase::AwaitRestart;
                        Action { crash_report: Some(rc), analyze: None, req: Req::Restart }
                    },
                },
                _ => abort_worker(w),
            },
            Phase::AwaitRestart => match ev {
                Event::Restarted => pick_next(w),
                _ => abort_worker(w),
            },
            Phase::AwaitConfirm { p, raw, idx, sub, nb1, br1 } => {
                proof {
                    assert(p.calls.len() == p.calls@.len());
                }
                match ev {
                Event::ExecDone(r) => match r {
                    Ok(ExecResult::Okay(raw2)) => {
                        if raw2.len() != idx + 1 {
                            self.analyze_from(w, p, raw, idx + 1)
                        } else {
                            let tr2: &Vec<u64> = &raw2[idx];
                            let (blocks2, branches2) = cook_raw_block(tr2.as_slice());
                            let nb2 = self.feedback.diff_block(blocks2.as_slice());
                            let br2 = self.feedback.diff_branch(branches2.as_slice());
                            let nb = nb1.intersect(&nb2);
                            let br = br1.intersect(&br2);
                            if nb.is_empty() && br.is_empty() {
                                self.analyze_from(w, p, raw, idx + 1)
                            } else {
                                if sub.len() == 1 {
                                    let minp = sub.clone();
                                    let q = sub.clone();
                                    let cur = sub.clone();
                                    let ctx = MinCtx { p, raw, idx, sub, nb, br, cur, i_m: 0 };
                                    w.phase = Phase::AwaitFinalExec { ctx, minp };
                                    Action {
                                        crash_report: None,
                                        analyze: None,
                                        req: Req::Exec(q),
                                    }
                                } else {
                                    let cur = sub.clone();
                                    let ctx = MinCtx { p, raw, idx, sub, nb, br, cur, i_m: 0 };
                                    w.phase = Phase::AwaitRemove { ctx };
                                    Action {
                                        crash_report: None,
                                        analyze: None,
                                        req: Req::AskRemove(0),
                                    }
                                }
                            }
                        }
                    },
                    Ok(ExecResult::Failed(reason)) => self.analyze_from(w, p, raw, idx + 1),
                    Err(crash) => {
                        if crash.is_leak() {
                            self.analyze_from(w, p, raw, idx + 1)
                        } else {
                            abort_worker(w)
                        }
                    },
                },
                _ => abort_worker(w),
            }
            },
            Phase::AwaitRemove { ctx } => match ev {
                Event::RemoveAns(legal) => {
                    let MinCtx { p, raw, idx, sub, nb, br, cur, i_m } = ctx;
                    if legal {
                        let saved = cur.clone();
                        let mut cur2 = cur;
                        let ghost pre = cur2.calls@;
                        cur2.remove_call(i_m);
                        proof {
                            assert(cur2.calls@.last() == pre.last()) by {
                                assert(cur2.calls@.len() == pre.len() - 1);
                                assert(cur2.calls@[pre.len() - 2] == pre[pre.len() - 1]);
                            }
                        }
                        let q = cur2.clone();
                        let ctx2 = MinCtx { p, raw, idx, sub, nb, br, cur: cur2, i_m };
                        w.phase = Phase::AwaitMinExec { ctx: ctx2, saved };
                        Action { crash_report: None, analyze: None, req: Req::Exec(q) }
                    } else {
                        proof {
                            assert(cur.calls.len() == cur.calls@.len());
                        }
                        let ctx2 = MinCtx { p, raw, idx, sub, nb, br, cur, i_m: i_m + 1 };
                        continue_min(w, ctx2)
                    }
                },
                _ => abort_worker(w),
            },
            Phase::AwaitMinExec { ctx, saved } => match ev {
                Event::ExecDone(r) => match r {
                    Ok(ExecResult::Okay(cover)) => {
                        let keep: bool = if cover.len() > 0 {
                            let last_tr: &Vec<u64> = &cover[cover.len() - 1];
                            let (blocks, branches) = cook_raw_block(last_tr.as_slice());
                            let nbm = self.feedback.diff_block(blocks.as_slice());
                            let inter = nbm.intersect(&ctx.nb);
                            proof {
                                assert(cover@.last() == cover@[cover@.len() - 1]);
                            }
                            !nbm.is_empty() && !inter.is_empty()
                        } else {
                            false
                        };
                        if keep {
                            continue_min(w, ctx)
                        } else {
                            let MinCtx { p, raw, idx, sub, nb, br, cur, i_m } = ctx;
                            proof {
                                assert(saved.calls.len() == saved.calls@.len());
                            }
                            let ctx2 = MinCtx { p, raw, idx, sub, nb, br, cur: saved, i_m: i_m
                                + 1 };
                            continue_min(w, ctx2)
                        }
                    },
                    Ok(ExecResult::Failed(reason)) => {
                        let q = saved.clone();
                        let MinCtx { p, raw, idx, sub, nb, br, cur, i_m } = ctx;
                        let minp = saved;
                        let ctx2 = MinCtx { p, raw, idx, sub, nb, br, cur: minp.clone(), i_m };
                        w.phase = Phase::AwaitFinalExec { ctx: ctx2, minp };
                        Action { crash_report: None, analyze: None, req: Req::Exec(q) }
                    },
                    Err(crash) => {
                        if crash.is_leak() {
                            let q = saved.clone();
                            let MinCtx { p, raw, idx, sub, nb, br, cur, i_m } = ctx;
                            let minp = saved;
                            let ctx2 = MinCtx { p, raw, idx, sub, nb, br, cur: minp.clone(), i_m };
                            w.phase = Phase::AwaitFinalExec { ctx: ctx2, minp };
                            Action { crash_report: None, analyze: None, req: Req::Exec(q) }
                        } else {
                            abort_worker(w)
                        }
                    },
                },
                _ => abort_worker(w),
            },
            Phase::AwaitFinalExec { ctx, minp } => match ev {
                Event::ExecDone(r) => {
                    let traces: Vec<Vec<u64>> = match r {
                        Ok(ExecResult::Okay(rf)) => rf,
                        Ok(ExecResult::Failed(reason)) => Vec::new(),
                        Err(crash) => {
                            if crash.is_leak() {
                                Vec::new()
                            } else {
                                return abort_worker(w);
                            }
                        },
                    };
                    self.book_new_coverage(w, ctx, minp, traces)
                },
                _ => abort_worker(w),
            },
            Phase::Stopped => abort_worker(w),
        }
    }

    /// The bookkeeping once the minimized program's full traces are in:
    /// record the case, retain the program, merge the confirmed coverage,
    /// hand the analyzed prefix out, and go on with the outer walk.
    fn book_new_coverage(
        &mut self,
        w: &mut WorkerState,
        ctx: MinCtx,
        minp: Prog,
        traces: Vec<Vec<u64>>,
    ) -> (a: Action)
        requires
            old(self).wf(),
            old(w).wf(),
            old(self).record.spec_id() < usize::MAX,
            ctx_wf(ctx),
            min_shape(ctx.sub, minp),
        ensures
            final(self).wf(),
            final(w).wf(),
            final(self).record.spec_id() == old(self).record.spec_id() + 1,
            new_cov_booked(*old(self), *final(self), minp, traces@, ctx.nb@, ctx.br@),
            match a.analyze {
                Some(q) => q.same_as(&ctx.sub),
                None => false,
            },
            a.crash_report is None,
            analyzed_from(*final(self), *old(w), ctx.p, ctx.raw, ctx.idx + 1, *final(w), a),
    {
        let MinCtx { p, raw, idx, sub, nb, br, cur, i_m } = ctx;
        let mut cooked_blocks: Vec<Vec<Block>> = Vec::new();
        let mut cooked_branches: Vec<Vec<Branch>> = Vec::new();
        let mut k: usize = 0;
        while k < traces.len()
            invariant
                k <= traces@.len(),
                cooked_blocks@.len() == k,
                cooked_branches@.len() == k,
                forall|j: int|
                    0 <= j < k ==> (#[trigger] cooked_blocks@[j])@.len() == block_set(
                        traces@[j]@,
                    ).len(),
                forall|j: int|
                    0 <= j < k ==> (#[trigger] cooked_branches@[j])@.len() == branch_set(
                        traces@[j]@,
                    ).len(),
            decreases traces@.len() - k,
        {
            let tr: &Vec<u64> = &traces[k];
            let (blocks, branches) = cook_raw_block(tr.as_slice());
            proof {
                lemma_sorted_len_is_set_len(block_ids(blocks@));
                assert(blocks@.len() == block_ids(blocks@).len());
                lemma_sorted_len_is_set_len(branch_ids(branches@));
                assert(branches@.len() == branch_ids(branches@).len());
            }
            cooked_blocks.push(blocks);
            cooked_branches.push(branches);
            k += 1;
        }
        self.record.insert_executed(&minp, &cooked_blocks, &cooked_branches, &nb, &br);
        self.corpus.insert(minp);
        self.feedback.merge(&nb, &br);
        let subq = sub.clone();
        proof {
            assert(p.calls.len() == p.calls@.len());
        }
        let mut a = self.analyze_from(w, p, raw, idx + 1);
        let ghost a0 = a;
        a.analyze = Some(subq);
        proof {
            assert(a.req == a0.req);
            assert(a.crash_report == a0.crash_report);
        }
        a
    }
}

/// A protocol violation or an unexpected crash stops the worker.
fn abort_worker(w: &mut WorkerState) -> (a: Action)
    requires
        old(w).seed_idx <= old(w).seeds@.len(),
    ensures
        final(w).wf(),
        final(w).seeds@ == old(w).seeds@,
        final(w).seed_idx == old(w).seed_idx,
        aborted(*final(w), a),
{
    w.phase = Phase::Stopped;
    Action { crash_report: None, analyze: None, req: Req::Abort(EXIT_SOFTWARE) }
}

/// Minimization never lengthens and never loses the last call: whenever a
/// worker is about to run a minimized program in full, that program is no
/// longer than the prefix minimization started from, belongs to the same
/// group, and ends in the same call.
pub proof fn lemma_minimize_never_lengthens(w: WorkerState)
    requires
        w.wf(),
        w.phase matches Phase::AwaitFinalExec { ctx, minp },
    ensures
        match w.phase {
            Phase::AwaitFinalExec { ctx, minp } => {
                &&& minp.calls@.len() >= 1
                &&& minp.calls@.len() <= ctx.sub.calls@.len()
                &&& minp.gid == ctx.sub.gid
                &&& minp.calls@.last() == ctx.sub.calls@.last()
            },
            _ => true,
        },
{
}

/// A strictly sorted sequence holds exactly its set of values.
proof fn lemma_sorted_len_is_set_len(s: Seq<u64>)
    requires
        strictly_sorted(s),
    ensures
        s.len() == s.to_set().len(),
{
    assert(s.no_duplicates());
    s.unique_seq_to_set();
}

} // verus!


