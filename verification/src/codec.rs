//! The binary form of a program list: a length-prefixed, little-endian
//! encoding used to persist and reload the corpus. Decoding is the exact
//! inverse of encoding.
//!
//! Layout: a `u64` count of programs; then per program its group id, its
//! call count, and one function id per call, each as eight little-endian
//! bytes.

use crate::prog::{call_fids, Call, Prog};
use vstd::prelude::*;

verus! {

/// The eight little-endian bytes of `x`.
pub open spec fn u64_le(x: u64) -> Seq<u8> {
    seq![
        (x & 0xff) as u8,
        ((x >> 8) & 0xff) as u8,
        ((x >> 16) & 0xff) as u8,
        ((x >> 24) & 0xff) as u8,
        ((x >> 32) & 0xff) as u8,
        ((x >> 40) & 0xff) as u8,
        ((x >> 48) & 0xff) as u8,
        ((x >> 56) & 0xff) as u8,
    ]
}

/// The value of eight little-endian bytes.
pub open spec fn u64_of_le(b: Seq<u8>) -> u64
    recommends
        b.len() == 8,
{
    (b[0] as u64) | ((b[1] as u64) << 8) | ((b[2] as u64) << 16) | ((b[3] as u64) << 24) | ((
    b[4] as u64) << 32) | ((b[5] as u64) << 40) | ((b[6] as u64) << 48) | ((b[7] as u64) << 56)
}

pub proof fn lemma_u64_le_roundtrip(x: u64)
    ensures
        u64_of_le(u64_le(x)) == x,
{
    assert((((x & 0xff) as u8 as u64) | (((x >> 8) & 0xff) as u8 as u64) << 8 | (((x >> 16)
        & 0xff) as u8 as u64) << 16 | (((x >> 24) & 0xff) as u8 as u64) << 24 | (((x >> 32)
        & 0xff) as u8 as u64) << 32 | (((x >> 40) & 0xff) as u8 as u64) << 40 | (((x >> 48)
        & 0xff) as u8 as u64) << 48 | (((x >> 56) & 0xff) as u8 as u64) << 56) == x)
        by (bit_vector);
}

/// A program reduced to what the encoding carries: its group id and the
/// function id of each call, in order.
pub open spec fn prog_rep(p: Prog) -> (u64, Seq<u64>) {
    (p.gid, call_fids(p.calls@))
}

/// The representations of a list of programs.
pub open spec fn prog_reps(ps: Seq<Prog>) -> Seq<(u64, Seq<u64>)> {
    ps.map_values(|p: Prog| prog_rep(p))
}

/// Machine limits under which the encoding is faithful: every count fits in
/// a `u64`.
pub open spec fn reps_wf(reps: Seq<(u64, Seq<u64>)>) -> bool {
    &&& reps.len() < 0x1_0000_0000_0000_0000
    &&& forall|i: int|
        0 <= i < reps.len() ==> (#[trigger] reps[i]).1.len() < 0x1_0000_0000_0000_0000
}

pub open spec fn enc_fids(fids: Seq<u64>) -> Seq<u8>
    decreases fids.len(),
{
    if fids.len() == 0 {
        Seq::empty()
    } else {
        u64_le(fids.first()) + enc_fids(fids.drop_first())
    }
}

pub open spec fn enc_prog(rep: (u64, Seq<u64>)) -> Seq<u8> {
    u64_le(rep.0) + u64_le(rep.1.len() as u64) + enc_fids(rep.1)
}

pub open spec fn enc_progs(reps: Seq<(u64, Seq<u64>)>) -> Seq<u8>
    decreases reps.len(),
{
    if reps.len() == 0 {
        Seq::empty()
    } else {
        enc_prog(reps.first()) + enc_progs(reps.drop_first())
    }
}

/// The full encoding: program count, then each program.
pub open spec fn spec_encode(reps: Seq<(u64, Seq<u64>)>) -> Seq<u8> {
    u64_le(reps.len() as u64) + enc_progs(reps)
}

/// Parse `n` function ids at `off`; on success also yield the offset after
/// them.
pub open spec fn parse_fids(b: Seq<u8>, off: int, n: nat) -> Option<(Seq<u64>, int)>
    decreases n,
{
    if n == 0 {
        Some((Seq::empty(), off))
    } else if 0 <= off && off + 8 <= b.len() {
        let x = u64_of_le(b.subrange(off, off + 8));
        match parse_fids(b, off + 8, (n - 1) as nat) {
            Some((rest, o)) => Some((seq![x] + rest, o)),
            None => None,
        }
    } else {
        None
    }
}

/// Parse `n` programs at `off`.
pub open spec fn parse_progs(b: Seq<u8>, off: int, n: nat) -> Option<(Seq<(u64, Seq<u64>)>, int)>
    decreases n,
{
    if n == 0 {
        Some((Seq::empty(), off))
    } else if 0 <= off && off + 16 <= b.len() {
        let gid = u64_of_le(b.subrange(off, off + 8));
        let ncalls = u64_of_le(b.subrange(off + 8, off + 16));
        match parse_fids(b, off + 16, ncalls as nat) {
            Some((fids, o2)) => match parse_progs(b, o2, (n - 1) as nat) {
                Some((rest, o3)) => Some((seq![(gid, fids)] + rest, o3)),
                None => None,
            },
            None => None,
        }
    } else {
        None
    }
}

/// Decode a whole byte string; every byte must be consumed.
pub open spec fn spec_decode(b: Seq<u8>) -> Option<Seq<(u64, Seq<u64>)>> {
    if b.len() >= 8 {
        let n = u64_of_le(b.subrange(0, 8));
        match parse_progs(b, 8, n as nat) {
            Some((reps, off)) => if off == b.len() {
                Some(reps)
            } else {
                None
            },
            None => None,
        }
    } else {
        None
    }
}

pub proof fn lemma_enc_fids_len(fids: Seq<u64>)
    ensures
        enc_fids(fids).len() == 8 * fids.len(),
    decreases fids.len(),
{
    if fids.len() > 0 {
        lemma_enc_fids_len(fids.drop_first());
    }
}

pub proof fn lemma_enc_progs_len(reps: Seq<(u64, Seq<u64>)>)
    ensures
        enc_progs(reps).len() == spec_encode(reps).len() - 8,
        enc_progs(reps).len() >= 0,
    decreases reps.len(),
{
    if reps.len() > 0 {
        lemma_enc_progs_len(reps.drop_first());
        lemma_enc_fids_len(reps.first().1);
    }
}

/// A subrange splits at any interior point into the concatenation of its
/// two halves.
proof fn lemma_subrange_split(b: Seq<u8>, off: int, l1: int, l2: int)
    requires
        0 <= off,
        0 <= l1,
        0 <= l2,
        off + l1 + l2 <= b.len(),
    ensures
        b.subrange(off, off + l1 + l2) == b.subrange(off, off + l1) + b.subrange(
            off + l1,
            off + l1 + l2,
        ),
{
    assert(b.subrange(off, off + l1 + l2) =~= b.subrange(off, off + l1) + b.subrange(
        off + l1,
        off + l1 + l2,
    ));
}

/// Equal concatenations with equally long first parts have equal parts.
proof fn lemma_concat_parts(s1: Seq<u8>, s2: Seq<u8>, t1: Seq<u8>, t2: Seq<u8>)
    requires
        s1 + s2 == t1 + t2,
        s1.len() == t1.len(),
    ensures
        s1 == t1,
        s2 == t2,
{
    assert(s1 =~= t1) by {
        assert forall|k: int| 0 <= k < s1.len() implies s1[k] == t1[k] by {
            assert((s1 + s2)[k] == s1[k]);
            assert((t1 + t2)[k] == t1[k]);
        }
    }
    assert(s2 =~= t2) by {
        assert((s1 + s2).len() == s1.len() + s2.len());
        assert((t1 + t2).len() == t1.len() + t2.len());
        assert(s2.len() == t2.len());
        assert forall|k: int| 0 <= k < s2.len() implies s2[k] == t2[k] by {
            assert((s1 + s2)[k + s1.len()] == s2[k]);
            assert((t1 + t2)[k + t1.len()] == t2[k]);
        }
    }
}

/// Parsing `n` encoded function ids out of any surrounding bytes yields
/// exactly the ids that were encoded.
pub proof fn lemma_parse_enc_fids(b: Seq<u8>, off: int, fids: Seq<u64>)
    requires
        0 <= off,
        off + enc_fids(fids).len() <= b.len(),
        b.subrange(off, off + enc_fids(fids).len()) == enc_fids(fids),
    ensures
        parse_fids(b, off, fids.len()) == Some((fids, off + enc_fids(fids).len())),
    decreases fids.len(),
{
    lemma_enc_fids_len(fids);
    if fids.len() == 0 {
        assert(fids =~= Seq::<u64>::empty());
    } else {
        let first = fids.first();
        let rest = fids.drop_first();
        lemma_enc_fids_len(rest);
        let ll = enc_fids(fids).len() as int;
        assert(enc_fids(fids) == u64_le(first) + enc_fids(rest));
        lemma_subrange_split(b, off, 8, enc_fids(rest).len() as int);
        lemma_concat_parts(
            b.subrange(off, off + 8),
            b.subrange(off + 8, off + ll),
            u64_le(first),
            enc_fids(rest),
        );
        lemma_u64_le_roundtrip(first);
        assert(u64_of_le(b.subrange(off, off + 8)) == first);
        lemma_parse_enc_fids(b, off + 8, rest);
        assert(seq![first] + rest =~= fids);
    }
}

/// Parsing `n` encoded programs out of any surrounding bytes yields exactly
/// the programs that were encoded.
pub proof fn lemma_parse_enc_progs(b: Seq<u8>, off: int, reps: Seq<(u64, Seq<u64>)>)
    requires
        reps_wf(reps),
        0 <= off,
        off + enc_progs(reps).len() <= b.len(),
        b.subrange(off, off + enc_progs(reps).len()) == enc_progs(reps),
    ensures
        parse_progs(b, off, reps.len()) == Some((reps, off + enc_progs(reps).len())),
    decreases reps.len(),
{
    if reps.len() == 0 {
        assert(reps =~= Seq::<(u64, Seq<u64>)>::empty());
    } else {
        let first = reps.first();
        let rest = reps.drop_first();
        let fids = first.1;
        lemma_enc_fids_len(fids);
        lemma_enc_progs_len(rest);
        lemma_enc_progs_len(reps);
        assert(enc_progs(reps) == enc_prog(first) + enc_progs(rest));
        let plen = enc_prog(first).len() as int;
        assert(plen == 16 + enc_fids(fids).len());
        let ll = enc_progs(reps).len() as int;
        lemma_subrange_split(b, off, plen, enc_progs(rest).len() as int);
        lemma_concat_parts(
            b.subrange(off, off + plen),
            b.subrange(off + plen, off + ll),
            enc_prog(first),
            enc_progs(rest),
        );
        assert(enc_prog(first) == (u64_le(first.0) + u64_le(fids.len() as u64)) + enc_fids(fids));
        lemma_subrange_split(b, off, 16, enc_fids(fids).len() as int);
        lemma_concat_parts(
            b.subrange(off, off + 16),
            b.subrange(off + 16, off + plen),
            u64_le(first.0) + u64_le(fids.len() as u64),
            enc_fids(fids),
        );
        lemma_subrange_split(b, off, 8, 8);
        lemma_concat_parts(
            b.subrange(off, off + 8),
            b.subrange(off + 8, off + 16),
            u64_le(first.0),
            u64_le(fids.len() as u64),
        );
        lemma_u64_le_roundtrip(first.0);
        lemma_u64_le_roundtrip(fids.len() as u64);
        assert(u64_of_le(b.subrange(off, off + 8)) == first.0);
        assert(u64_of_le(b.subrange(off + 8, off + 16)) == fids.len() as u64);
        assert((fids.len() as u64) as nat == fids.len());
        lemma_parse_enc_fids(b, off + 16, fids);
        assert(reps_wf(rest)) by {
            assert(forall|i: int|
                0 <= i < rest.len() ==> rest[i] == reps[i + 1] && (#[trigger] rest[i]).1.len()
                    < 0x1_0000_0000_0000_0000);
        }
        lemma_parse_enc_progs(b, off + plen, rest);
        assert(seq![(first.0, fids)] + rest =~= reps);
    }
}

/// Round trip: decoding an encoding gives back exactly what was encoded.
pub proof fn lemma_codec_roundtrip(reps: Seq<(u64, Seq<u64>)>)
    requires
        reps_wf(reps),
    ensures
        spec_decode(spec_encode(reps)) == Some(reps),
{
    let b = spec_encode(reps);
    lemma_enc_progs_len(reps);
    assert(b.subrange(0, 8) =~= u64_le(reps.len() as u64));
    lemma_u64_le_roundtrip(reps.len() as u64);
    assert((reps.len() as u64) as nat == reps.len());
    assert(b.subrange(8, 8 + enc_progs(reps).len() as int) =~= enc_progs(reps));
    lemma_parse_enc_progs(b, 8, reps);
}

fn read_u64(b: &[u8], off: usize) -> (r: u64)
    requires
        off + 8 <= b@.len(),
    ensures
        r == u64_of_le(b@.subrange(off as int, off as int + 8)),
{
    let r: u64 = (b[off] as u64) | ((b[off + 1] as u64) << 8u64) | ((b[off + 2] as u64) << 16u64)
        | ((b[off + 3] as u64) << 24u64) | ((b[off + 4] as u64) << 32u64) | ((b[off
        + 5] as u64) << 40u64) | ((b[off + 6] as u64) << 48u64) | ((b[off + 7] as u64) << 56u64);
    proof {
        let s = b@.subrange(off as int, off as int + 8);
        assert(s[0] == b@[off as int]);
        assert(s[1] == b@[off as int + 1]);
        assert(s[2] == b@[off as int + 2]);
        assert(s[3] == b@[off as int + 3]);
        assert(s[4] == b@[off as int + 4]);
        assert(s[5] == b@[off as int + 5]);
        assert(s[6] == b@[off as int + 6]);
        assert(s[7] == b@[off as int + 7]);
    }
    r
}

fn push_u64(out: &mut Vec<u8>, x: u64)
    ensures
        final(out)@ == old(out)@ + u64_le(x),
{
    proof {
        assert((x & 0xff) < 256 && ((x >> 8) & 0xff) < 256 && ((x >> 16) & 0xff) < 256 && ((x
            >> 24) & 0xff) < 256 && ((x >> 32) & 0xff) < 256 && ((x >> 40) & 0xff) < 256 && ((x
            >> 48) & 0xff) < 256 && ((x >> 56) & 0xff) < 256) by (bit_vector);
    }
    out.push((x & 0xff) as u8);
    out.push(((x >> 8) & 0xff) as u8);
    out.push(((x >> 16) & 0xff) as u8);
    out.push(((x >> 24) & 0xff) as u8);
    out.push(((x >> 32) & 0xff) as u8);
    out.push(((x >> 40) & 0xff) as u8);
    out.push(((x >> 48) & 0xff) as u8);
    out.push(((x >> 56) & 0xff) as u8);
    proof {
        assert(final(out)@ =~= old(out)@ + u64_le(x));
    }
}

/// Encode a list of programs.
pub fn encode_progs(ps: &Vec<Prog>) -> (r: Vec<u8>)
    ensures
        r@ == spec_encode(prog_reps(ps@)),
{
    let mut out: Vec<u8> = Vec::new();
    push_u64(&mut out, ps.len() as u64);
    proof {
        assert(prog_reps(ps@).len() == ps@.len());
        assert(out@ =~= u64_le(prog_reps(ps@).len() as u64));
    }
    let mut i: usize = 0;
    while i < ps.len()
        invariant
            i <= ps@.len(),
            out@ == u64_le(prog_reps(ps@).len() as u64) + enc_progs(prog_reps(ps@).take(i as int)),
        decreases ps@.len() - i,
    {
        let ghost done = prog_reps(ps@).take(i as int);
        let p: &Prog = &ps[i];
        push_u64(&mut out, p.gid);
        push_u64(&mut out, p.calls.len() as u64);
        let ghost out_mark = out@;
        let mut j: usize = 0;
        while j < p.calls.len()
            invariant
                j <= p.calls@.len(),
                out@ == out_mark + enc_fids(prog_rep(*p).1.take(j as int)),
            decreases p.calls@.len() - j,
        {
            push_u64(&mut out, p.calls[j].fid);
            proof {
                lemma_enc_fids_snoc(prog_rep(*p).1.take(j as int), p.calls@[j as int].fid);
                assert(prog_rep(*p).1.take(j + 1) =~= prog_rep(*p).1.take(j as int).push(
                    p.calls@[j as int].fid,
                ));
                assert(out@ =~= out_mark + enc_fids(prog_rep(*p).1.take(j + 1)));
            }
            j += 1;
        }
        proof {
            assert(prog_rep(*p).1.take(p.calls@.len() as int) =~= prog_rep(*p).1);
            assert(prog_reps(ps@)[i as int] == prog_rep(ps@[i as int]));
            lemma_enc_progs_snoc(done, prog_rep(*p));
            assert(prog_reps(ps@).take(i + 1) =~= done.push(prog_rep(*p)));
            assert(out@ =~= u64_le(prog_reps(ps@).len() as u64) + enc_progs(
                prog_reps(ps@).take(i + 1),
            ));
        }
        i += 1;
    }
    proof {
        assert(prog_reps(ps@).take(prog_reps(ps@).len() as int) =~= prog_reps(ps@));
    }
    out
}

proof fn lemma_enc_fids_snoc(fids: Seq<u64>, x: u64)
    ensures
        enc_fids(fids.push(x)) == enc_fids(fids) + u64_le(x),
    decreases fids.len(),
{
    let p = fids.push(x);
    assert(p.len() == fids.len() + 1);
    if fids.len() == 0 {
        assert(p.first() == x);
        assert(p.drop_first() =~= Seq::<u64>::empty());
        assert(enc_fids(Seq::<u64>::empty()) == Seq::<u8>::empty());
        assert(enc_fids(p) == u64_le(x) + Seq::<u8>::empty());
        assert(fids =~= Seq::<u64>::empty());
        assert(enc_fids(p) =~= enc_fids(fids) + u64_le(x));
    } else {
        assert(p.first() == fids.first());
        assert(p.drop_first() =~= fids.drop_first().push(x));
        lemma_enc_fids_snoc(fids.drop_first(), x);
        assert(enc_fids(p) == u64_le(fids.first()) + enc_fids(fids.drop_first().push(x)));
        assert(enc_fids(fids) == u64_le(fids.first()) + enc_fids(fids.drop_first()));
        assert(enc_fids(p) =~= enc_fids(fids) + u64_le(x));
    }
}

proof fn lemma_enc_progs_snoc(reps: Seq<(u64, Seq<u64>)>, rep: (u64, Seq<u64>))
    ensures
        enc_progs(reps.push(rep)) == enc_progs(reps) + enc_prog(rep),
    decreases reps.len(),
{
    let p = reps.push(rep);
    assert(p.len() == reps.len() + 1);
    if reps.len() == 0 {
        assert(p.first() == rep);
        assert(p.drop_first() =~= Seq::<(u64, Seq<u64>)>::empty());
        assert(enc_progs(Seq::<(u64, Seq<u64>)>::empty()) == Seq::<u8>::empty());
        assert(enc_progs(p) == enc_prog(rep) + Seq::<u8>::empty());
        assert(reps =~= Seq::<(u64, Seq<u64>)>::empty());
        assert(enc_progs(p) =~= enc_progs(reps) + enc_prog(rep));
    } else {
        assert(p.first() == reps.first());
        assert(p.drop_first() =~= reps.drop_first().push(rep));
        lemma_enc_progs_snoc(reps.drop_first(), rep);
        assert(enc_progs(p) == enc_prog(reps.first()) + enc_progs(reps.drop_first().push(rep)));
        assert(enc_progs(reps) == enc_prog(reps.first()) + enc_progs(reps.drop_first()));
        assert(enc_progs(p) =~= enc_progs(reps) + enc_prog(rep));
    }
}

/// Why a byte string was rejected by `decode_progs`.
#[derive(Clone, Copy, Debug, PartialEq, Eq, Structural)]
pub struct MalformedCorpus;

/// Decode a byte string produced by `encode_progs`. Rejects exactly the
/// strings that are not a complete, fully-consumed encoding.
pub fn decode_progs(bytes: &[u8]) -> (r: Result<Vec<Prog>, MalformedCorpus>)
    ensures
        match r {
            Ok(ps) => spec_decode(bytes@) == Some(prog_reps(ps@)),
            Err(e) => spec_decode(bytes@) is None,
        },
{
    let blen = bytes.len();
    if blen < 8 {
        return Err(MalformedCorpus);
    }
    let n = read_u64(bytes, 0);
    let mut off: usize = 8;
    let mut progs: Vec<Prog> = Vec::new();
    let mut i: u64 = 0;
    proof {
        assert(prog_reps(progs@) =~= Seq::<(u64, Seq<u64>)>::empty());
        match parse_progs(bytes@, 8, n as nat) {
            Some((ps, o)) => {
                assert(prog_reps(progs@) + ps =~= ps);
            },
            None => {},
        }
    }
    while i < n
        invariant
            8 <= off <= blen,
            blen == bytes@.len(),
            blen >= 8,
            i <= n,
            progs@.len() == i as nat,
            n == u64_of_le(bytes@.subrange(0, 8)),
            match parse_progs(bytes@, off as int, (n - i) as nat) {
                Some((ps, o)) => parse_progs(bytes@, 8, n as nat) == Some(
                    (prog_reps(progs@) + ps, o),
                ),
                None => parse_progs(bytes@, 8, n as nat) is None,
            },
        decreases n - i,
    {
        let ghost prog_start = off as int;
        let ghost rem = (n - i) as nat;
        if blen - off < 16 {
            proof {
                assert(parse_progs(bytes@, prog_start, rem) is None);
            }
            return Err(MalformedCorpus);
        }
        let gid = read_u64(bytes, off);
        let ncalls = read_u64(bytes, off + 8);
        let ghost outer_reps = prog_reps(progs@);
        off = off + 16;
        let mut calls: Vec<Call> = Vec::new();
        let mut j: u64 = 0;
        let ghost fid_start = off as int;
        proof {
            assert(call_fids(calls@) =~= Seq::<u64>::empty());
            match parse_fids(bytes@, fid_start, ncalls as nat) {
                Some((fs, o)) => {
                    assert(call_fids(calls@) + fs =~= fs);
                },
                None => {},
            }
        }
        while j < ncalls
            invariant
                fid_start <= off <= blen,
                blen == bytes@.len(),
                blen >= 8,
                n == u64_of_le(bytes@.subrange(0, 8)),
                i < n,
                rem == (n - i) as nat,
                0 <= prog_start,
                prog_start + 16 == fid_start,
                gid == u64_of_le(bytes@.subrange(prog_start, prog_start + 8)),
                ncalls == u64_of_le(bytes@.subrange(prog_start + 8, prog_start + 16)),
                outer_reps == prog_reps(progs@),
                match parse_progs(bytes@, prog_start, rem) {
                    Some((ps, o)) => parse_progs(bytes@, 8, n as nat) == Some(
                        (outer_reps + ps, o),
                    ),
                    None => parse_progs(bytes@, 8, n as nat) is None,
                },
                j <= ncalls,
                calls@.len() == j as nat,
                match parse_fids(bytes@, off as int, (ncalls - j) as nat) {
                    Some((fs, o)) => parse_fids(bytes@, fid_start, ncalls as nat) == Some(
                        (call_fids(calls@) + fs, o),
                    ),
                    None => parse_fids(bytes@, fid_start, ncalls as nat) is None,
                },
            decreases ncalls - j,
        {
            let ghost mid = off as int;
            let ghost fids_done = call_fids(calls@);
            if blen - off < 8 {
                proof {
                    assert(parse_fids(bytes@, mid, (ncalls - j) as nat) is None);
                    assert(parse_fids(bytes@, fid_start, ncalls as nat) is None);
                    assert(parse_progs(bytes@, prog_start, rem) is None);
                }
                return Err(MalformedCorpus);
            }
            let fid = read_u64(bytes, off);
            calls.push(Call { fid });
            off = off + 8;
            proof {
                let fids_now = call_fids(calls@);
                assert(fids_now =~= fids_done.push(fid));
                match parse_fids(bytes@, off as int, (ncalls - j - 1) as nat) {
                    Some((fs, o)) => {
                        assert(parse_fids(bytes@, mid, (ncalls - j) as nat) == Some(
                            (seq![fid] + fs, o),
                        ));
                        assert(fids_done + (seq![fid] + fs) =~= fids_now + fs);
                    },
                    None => {
                        assert(parse_fids(bytes@, mid, (ncalls - j) as nat) is None);
                    },
                }
            }
            j += 1;
        }
        proof {
            assert(parse_fids(bytes@, off as int, 0) == Some(
                (Seq::<u64>::empty(), off as int),
            ));
            let fids = call_fids(calls@);
            assert(fids + Seq::<u64>::empty() =~= fids);
            assert(parse_fids(bytes@, fid_start, ncalls as nat) == Some((fids, off as int)));
        }
        let p = Prog { gid, calls };
        let ghost fids = call_fids(p.calls@);
        let ghost prev = progs@;
        progs.push(p);
        proof {
            assert(prog_reps(progs@) =~= prog_reps(prev).push((gid, fids)));
            match parse_progs(bytes@, off as int, (n - i - 1) as nat) {
                Some((ps, o)) => {
                    assert(parse_progs(bytes@, prog_start, rem) == Some(
                        (seq![(gid, fids)] + ps, o),
                    ));
                    assert(prog_reps(prev) + (seq![(gid, fids)] + ps) =~= prog_reps(progs@) + ps);
                },
                None => {
                    assert(parse_progs(bytes@, prog_start, rem) is None);
                },
            }
        }
        i += 1;
    }
    proof {
        assert(parse_progs(bytes@, off as int, 0) == Some(
            (Seq::<(u64, Seq<u64>)>::empty(), off as int),
        ));
        assert(prog_reps(progs@) + Seq::<(u64, Seq<u64>)>::empty() =~= prog_reps(progs@));
    }
    if off != blen {
        return Err(MalformedCorpus);
    }
    Ok(progs)
}

} // verus!
