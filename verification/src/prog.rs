//! The program model and the target's name tables.
//!
//! A program is an ordered sequence of system calls generated against one
//! group of the target. The fuzzing core only ever reads a call's function
//! identifier (to name records) and the sequence structure (to take
//! prefixes and delete calls); everything else about a call is owned by the
//! generator and never inspected here.

use vstd::prelude::*;

verus! {

pub type GroupId = u64;

pub type FnId = u64;

/// One system call of a program, identified by the function it invokes.
#[derive(Clone, Copy, Debug, PartialEq, Eq, Hash, Structural)]
pub struct Call {
    pub fid: FnId,
}

/// The function ids of a call sequence, in order.
pub open spec fn call_fids(calls: Seq<Call>) -> Seq<u64> {
    calls.map_values(|c: Call| c.fid)
}

/// An ordered sequence of system calls belonging to one group.
#[derive(Debug)]
pub struct Prog {
    pub gid: GroupId,
    pub calls: Vec<Call>,
}

impl Clone for Prog {
    fn clone(&self) -> (res: Prog)
        ensures
            res.gid == self.gid,
            res.calls@ == self.calls@,
    {
        let mut calls: Vec<Call> = Vec::new();
        let mut i: usize = 0;
        while i < self.calls.len()
            invariant
                i <= self.calls@.len(),
                calls@ == self.calls@.take(i as int),
            decreases self.calls@.len() - i,
        {
            calls.push(self.calls[i]);
            proof {
                assert(calls@ =~= self.calls@.take(i + 1));
            }
            i += 1;
        }
        proof {
            assert(self.calls@.take(self.calls@.len() as int) =~= self.calls@);
        }
        Prog { gid: self.gid, calls }
    }
}

impl Prog {
    /// Two programs are the same when they belong to the same group and
    /// make the same calls in the same order.
    pub open spec fn same_as(&self, other: &Prog) -> bool {
        self.gid == other.gid && self.calls@ == other.calls@
    }

    pub fn new(gid: GroupId, calls: Vec<Call>) -> (p: Prog)
        ensures
            p.gid == gid,
            p.calls@ == calls@,
    {
        Prog { gid, calls }
    }

    pub fn len(&self) -> (n: usize)
        ensures
            n == self.calls@.len(),
    {
        self.calls.len()
    }

    /// The prefix holding the first `i + 1` calls.
    pub fn sub_prog(&self, i: usize) -> (p: Prog)
        requires
            i < self.calls@.len(),
        ensures
            p.gid == self.gid,
            p.calls@ == self.calls@.take(i + 1),
    {
        let mut calls: Vec<Call> = Vec::new();
        let mut k: usize = 0;
        while k < i
            invariant
                k <= i,
                i < self.calls@.len(),
                calls@ == self.calls@.take(k as int),
            decreases i - k,
        {
            calls.push(self.calls[k]);
            proof {
                assert(calls@ =~= self.calls@.take(k + 1));
            }
            k += 1;
        }
        calls.push(self.calls[i]);
        proof {
            assert(calls@ =~= self.calls@.take(i + 1));
        }
        Prog { gid: self.gid, calls }
    }

    pub fn last_call(&self) -> (c: Call)
        requires
            self.calls@.len() > 0,
        ensures
            c == self.calls@.last(),
    {
        self.calls[self.calls.len() - 1]
    }

    /// Delete call `i`, shifting the rest left.
    pub fn remove_call(&mut self, i: usize)
        requires
            i < old(self).calls@.len(),
        ensures
            final(self).gid == old(self).gid,
            final(self).calls@ == old(self).calls@.remove(i as int),
    {
        self.calls.remove(i);
    }

    /// Structural equality with another program.
    pub fn equals(&self, other: &Prog) -> (r: bool)
        ensures
            r == self.same_as(other),
    {
        if self.gid != other.gid {
            return false;
        }
        if self.calls.len() != other.calls.len() {
            proof {
                assert(self.calls@ != other.calls@);
            }
            return false;
        }
        let mut i: usize = 0;
        while i < self.calls.len()
            invariant
                i <= self.calls@.len(),
                self.calls@.len() == other.calls@.len(),
                forall|k: int| 0 <= k < i ==> self.calls@[k] == other.calls@[k],
            decreases self.calls@.len() - i,
        {
            if self.calls[i].fid != other.calls[i].fid {
                proof {
                    assert(self.calls@[i as int] != other.calls@[i as int]);
                }
                return false;
            }
            i += 1;
        }
        proof {
            assert(self.calls@ =~= other.calls@);
        }
        true
    }
}

/// First value bound to `id` in an association list, if any.
pub open spec fn spec_lookup(entries: Seq<(u64, String)>, id: u64) -> Option<Seq<char>>
    decreases entries.len(),
{
    if entries.len() == 0 {
        None
    } else if entries[0].0 == id {
        Some(entries[0].1@)
    } else {
        spec_lookup(entries.drop_first(), id)
    }
}

fn lookup<'a>(entries: &'a Vec<(u64, String)>, id: u64) -> (r: Option<&'a String>)
    ensures
        match r {
            Some(name) => spec_lookup(entries@, id) == Some(name@),
            None => spec_lookup(entries@, id) is None,
        },
{
    let mut i: usize = 0;
    proof {
        assert(entries@.skip(0) =~= entries@);
    }
    while i < entries.len()
        invariant
            i <= entries@.len(),
            spec_lookup(entries@, id) == spec_lookup(entries@.skip(i as int), id),
        decreases entries@.len() - i,
    {
        let e: &(u64, String) = &entries[i];
        proof {
            assert(entries@.skip(i as int)[0] == entries@[i as int]);
        }
        if e.0 == id {
            return Some(&e.1);
        }
        proof {
            assert(entries@.skip(i as int).drop_first() =~= entries@.skip(i + 1));
        }
        i += 1;
    }
    proof {
        assert(entries@.skip(entries@.len() as int) =~= Seq::<(u64, String)>::empty());
    }
    None
}

/// The parsed description of the kernel API surface under test, reduced to
/// what the fuzzing core reads of it: the name of each group and the
/// declared name of each function.
#[derive(Clone, Debug)]
pub struct Target {
    pub groups: Vec<(GroupId, String)>,
    pub fns: Vec<(FnId, String)>,
}

impl Target {
    pub open spec fn spec_group_name(&self, gid: GroupId) -> Option<Seq<char>> {
        spec_lookup(self.groups@, gid)
    }

    pub open spec fn spec_fn_name(&self, fid: FnId) -> Option<Seq<char>> {
        spec_lookup(self.fns@, fid)
    }

    pub fn new(groups: Vec<(GroupId, String)>, fns: Vec<(FnId, String)>) -> (t: Target)
        ensures
            t.groups@ == groups@,
            t.fns@ == fns@,
    {
        Target { groups, fns }
    }

    /// The name of the given group, if the target declares it.
    pub fn group_name_of(&self, gid: GroupId) -> (r: Option<&String>)
        ensures
            match r {
                Some(name) => self.spec_group_name(gid) == Some(name@),
                None => self.spec_group_name(gid) is None,
            },
    {
        lookup(&self.groups, gid)
    }

    /// The declared name of the given function, if the target declares it.
    pub fn fn_name_of(&self, fid: FnId) -> (r: Option<&String>)
        ensures
            match r {
                Some(name) => self.spec_fn_name(fid) == Some(name@),
                None => self.spec_fn_name(fid) is None,
            },
    {
        lookup(&self.fns, fid)
    }
}

/// The declared name of `fid`, or nothing where the target does not know it.
pub open spec fn name_or_empty(t: &Target, fid: FnId) -> Seq<char> {
    match t.spec_fn_name(fid) {
        Some(name) => name,
        None => Seq::empty(),
    }
}

/// The script rendering of a call sequence: one line per call, holding the
/// declared name of the invoked function.
pub open spec fn spec_script(t: &Target, calls: Seq<Call>) -> Seq<char>
    decreases calls.len(),
{
    if calls.len() == 0 {
        Seq::empty()
    } else {
        spec_script(t, calls.drop_last()) + name_or_empty(t, calls.last().fid) + seq!['\n']
    }
}

/// Render a program as a script for logs and records.
pub fn script_of(t: &Target, p: &Prog) -> (s: String)
    ensures
        s@ == spec_script(t, p.calls@),
{
    let mut s = String::new();
    let mut i: usize = 0;
    while i < p.calls.len()
        invariant
            i <= p.calls@.len(),
            s@ == spec_script(t, p.calls@.take(i as int)),
        decreases p.calls@.len() - i,
    {
        match t.fn_name_of(p.calls[i].fid) {
            Some(name) => {
                let chunk: &str = name.as_str();
                s.append(chunk);
            },
            None => {},
        }
        s.append("\n");
        proof {
            reveal_strlit("\n");
            assert(("\n")@ =~= seq!['\n']);
            assert(p.calls@.take(i + 1).drop_last() =~= p.calls@.take(i as int));
            assert(p.calls@.take(i + 1).last() == p.calls@[i as int]);
            assert(s@ =~= spec_script(t, p.calls@.take(i + 1)));
        }
        i += 1;
    }
    proof {
        assert(p.calls@.take(p.calls@.len() as int) =~= p.calls@);
    }
    s
}

} // verus!
