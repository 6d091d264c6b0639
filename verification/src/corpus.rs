//! The corpus: the set of retained programs, each of which contributed new
//! coverage when it was inserted. Dump and load round-trip its contents.

use crate::codec::{
    decode_progs, encode_progs, lemma_codec_roundtrip, prog_rep, prog_reps, reps_wf, spec_decode,
    spec_encode, MalformedCorpus,
};
use crate::prog::Prog;
use vstd::prelude::*;

verus! {

/// A set of programs, deduplicated by group and call sequence.
#[derive(Debug)]
pub struct Corpus {
    progs: Vec<Prog>,
}

impl View for Corpus {
    type V = Set<(u64, Seq<u64>)>;

    closed spec fn view(&self) -> Set<(u64, Seq<u64>)> {
        prog_reps(self.progs@).to_set()
    }
}

impl Default for Corpus {
    fn default() -> (c: Corpus)
        ensures
            c.wf(),
            c@ == Set::<(u64, Seq<u64>)>::empty(),
    {
        Corpus::new()
    }
}

impl Corpus {
    /// Each retained program occurs once.
    pub closed spec fn wf(&self) -> bool {
        prog_reps(self.progs@).no_duplicates()
    }

    pub fn new() -> (c: Corpus)
        ensures
            c.wf(),
            c@ == Set::<(u64, Seq<u64>)>::empty(),
    {
        let c = Corpus { progs: Vec::new() };
        proof {
            assert(prog_reps(c.progs@) =~= Seq::<(u64, Seq<u64>)>::empty());
            assert(c@ =~= Set::<(u64, Seq<u64>)>::empty());
        }
        c
    }

    /// Insert a program; true iff it was not present yet.
    pub fn insert(&mut self, p: Prog) -> (added: bool)
        requires
            old(self).wf(),
        ensures
            final(self).wf(),
            added == !old(self)@.contains(prog_rep(p)),
            final(self)@ == old(self)@.insert(prog_rep(p)),
    {
        let ghost reps = prog_reps(self.progs@);
        let mut i: usize = 0;
        while i < self.progs.len()
            invariant
                i <= self.progs@.len(),
                self.progs@ == old(self).progs@,
                old(self).wf(),
                reps == prog_reps(self.progs@),
                forall|k: int| 0 <= k < i ==> reps[k] != prog_rep(p),
            decreases self.progs@.len() - i,
        {
            if self.progs[i].equals(&p) {
                proof {
                    assert(self.progs@[i as int].same_as(&p));
                    assert(reps[i as int] == prog_rep(self.progs@[i as int]));
                    assert(prog_rep(self.progs@[i as int]) == prog_rep(p)) by {
                        assert(self.progs@[i as int].calls@ == p.calls@);
                    }
                    assert(reps.contains(prog_rep(p)));
                    assert(self@.contains(prog_rep(p)));
                    assert(self@ =~= self@.insert(prog_rep(p)));
                }
                return false;
            }
            proof {
                let q = self.progs@[i as int];
                assert(reps[i as int] == prog_rep(q));
                assert(prog_rep(q) != prog_rep(p)) by {
                    if prog_rep(q) == prog_rep(p) {
                        assert(q.gid == p.gid);
                        assert(crate::prog::call_fids(q.calls@)
                            == crate::prog::call_fids(p.calls@));
                        assert(q.calls@.len() == p.calls@.len()) by {
                            assert(crate::prog::call_fids(q.calls@).len() == q.calls@.len());
                            assert(crate::prog::call_fids(p.calls@).len() == p.calls@.len());
                        }
                        assert(q.calls@ =~= p.calls@) by {
                            assert forall|m: int| 0 <= m < q.calls@.len() implies q.calls@[m]
                                == p.calls@[m] by {
                                assert(crate::prog::call_fids(q.calls@)[m]
                                    == q.calls@[m].fid);
                                assert(crate::prog::call_fids(p.calls@)[m]
                                    == p.calls@[m].fid);
                                assert(q.calls@[m].fid == p.calls@[m].fid);
                                assert(q.calls@[m] == crate::prog::Call {
                                    fid: q.calls@[m].fid,
                                });
                                assert(p.calls@[m] == crate::prog::Call {
                                    fid: p.calls@[m].fid,
                                });
                            }
                        }
                        assert(q.same_as(&p));
                    }
                    assert(!q.same_as(&p));
                }
            }
            i += 1;
        }
        proof {
            assert(!reps.contains(prog_rep(p)));
            assert(!self@.contains(prog_rep(p)));
        }
        let ghost pre = self.progs@;
        self.progs.push(p);
        proof {
            assert(prog_reps(self.progs@) =~= prog_reps(pre).push(prog_rep(p)));
            assert forall|a: int, b: int|
                0 <= a < prog_reps(self.progs@).len() && 0 <= b < prog_reps(self.progs@).len()
                    && a != b implies prog_reps(self.progs@)[a] != prog_reps(self.progs@)[b] by {
                if a < reps.len() && b < reps.len() {
                    assert(reps[a] != reps[b]);
                } else if a < reps.len() {
                    assert(reps.contains(reps[a]) ==> true);
                    assert(!reps.contains(prog_rep(p)));
                    assert(reps[a] == prog_reps(self.progs@)[a]);
                } else if b < reps.len() {
                    assert(!reps.contains(prog_rep(p)));
                    assert(reps[b] == prog_reps(self.progs@)[b]);
                }
            }
            vstd::seq_lib::lemma_seq_contains_after_push(reps, prog_rep(p), prog_rep(p));
            assert(self@ =~= old(self)@.insert(prog_rep(p))) by {
                assert forall|y: (u64, Seq<u64>)| self@.contains(y) <==> old(self)@.insert(
                    prog_rep(p),
                ).contains(y) by {
                    vstd::seq_lib::lemma_seq_contains_after_push(reps, prog_rep(p), y);
                }
            }
        }
        true
    }

    pub fn len(&self) -> (n: usize)
        requires
            self.wf(),
        ensures
            n == self@.len(),
    {
        proof {
            prog_reps(self.progs@).unique_seq_to_set();
        }
        self.progs.len()
    }

    pub fn is_empty(&self) -> (r: bool)
        requires
            self.wf(),
        ensures
            r == (self@.len() == 0),
    {
        proof {
            prog_reps(self.progs@).unique_seq_to_set();
        }
        self.progs.len() == 0
    }

    /// Serialize every retained program. Decoding the result yields exactly
    /// the corpus contents.
    pub fn dump(&self) -> (r: Vec<u8>)
        requires
            self.wf(),
        ensures
            ({
                match spec_decode(r@) {
                    Some(reps) => reps.to_set() == self@ && reps.no_duplicates(),
                    None => false,
                }
            }),
    {
        let r = encode_progs(&self.progs);
        proof {
            let reps = prog_reps(self.progs@);
            assert(reps_wf(reps)) by {
                assert(reps.len() == self.progs@.len());
                assert(self.progs.len() == self.progs@.len());
                assert forall|i: int| 0 <= i < reps.len() implies (#[trigger] reps[i]).1.len()
                    < 0x1_0000_0000_0000_0000 by {
                    assert(reps[i] == prog_rep(self.progs@[i]));
                    assert(self.progs@[i].calls.len() == self.progs@[i].calls@.len());
                    assert(reps[i].1.len() == self.progs@[i].calls@.len());
                }
            }
            lemma_codec_roundtrip(reps);
            assert(r@ == spec_encode(reps));
        }
        r
    }

    /// Rebuild a corpus from a dump. Fails exactly on byte strings that are
    /// not a complete encoding; duplicates collapse into the set.
    pub fn load(bytes: &[u8]) -> (r: Result<Corpus, MalformedCorpus>)
        ensures
            match r {
                Ok(c) => c.wf() && ({
                    match spec_decode(bytes@) {
                        Some(reps) => c@ == reps.to_set(),
                        None => false,
                    }
                }),
                Err(e) => spec_decode(bytes@) is None,
            },
    {
        let progs = match decode_progs(bytes) {
            Ok(ps) => ps,
            Err(e) => {
                return Err(e);
            },
        };
        let ghost reps = prog_reps(progs@);
        let mut c = Corpus::new();
        let ghost mut i: int = 0;
        proof {
            assert(reps.take(0).to_set() =~= Set::<(u64, Seq<u64>)>::empty()) by {
                assert(reps.take(0) =~= Seq::<(u64, Seq<u64>)>::empty());
            }
        }
        let mut progs = progs;
        while progs.len() > 0
            invariant
                c.wf(),
                0 <= i,
                reps.len() == i + progs@.len(),
                prog_reps(progs@) == reps.skip(i as int),
                c@ == reps.take(i as int).to_set(),
            decreases progs@.len(),
        {
            let ghost pre = progs@;
            let p = progs.remove(0);
            proof {
                assert(pre.drop_first() =~= progs@);
                assert(prog_reps(progs@) =~= prog_reps(pre).drop_first());
                assert(prog_reps(pre).drop_first() =~= reps.skip(i as int).drop_first());
                assert(reps.skip(i as int).drop_first() =~= reps.skip(i + 1));
                assert(prog_rep(p) == prog_reps(pre)[0]);
                assert(prog_reps(pre)[0] == reps.skip(i as int)[0]);
                assert(reps.skip(i as int)[0] == reps[i as int]);
            }
            c.insert(p);
            proof {
                assert(reps.take(i + 1) =~= reps.take(i as int).push(reps[i as int]));
                assert forall|y: (u64, Seq<u64>)| reps.take(i + 1).to_set().contains(y)
                    <==> reps.take(i as int).to_set().insert(reps[i as int]).contains(y) by {
                    vstd::seq_lib::lemma_seq_contains_after_push(
                        reps.take(i as int),
                        reps[i as int],
                        y,
                    );
                }
                assert(c@ =~= reps.take(i + 1).to_set());
                i = i + 1;
            }
        }
        proof {
            assert(reps.take(reps.len() as int) =~= reps);
        }
        Ok(c)
    }
}

} // verus!
