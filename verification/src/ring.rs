//! A fixed-capacity queue that overwrites its oldest element when full.
//! The abstract value is the held sequence, oldest first.

use vstd::prelude::*;

verus! {

/// The sequence after pushing `v` into a ring of capacity `cap`: the oldest
/// element falls out when the ring is full.
pub open spec fn ring_push<T>(s: Seq<T>, cap: nat, v: T) -> Seq<T> {
    if s.len() < cap {
        s.push(v)
    } else {
        s.drop_first().push(v)
    }
}

/// A property of every held element and of the new element holds of every
/// element after the push.
pub proof fn lemma_ring_push_preserves<T>(s: Seq<T>, cap: nat, v: T, pred: spec_fn(T) -> bool)
    requires
        cap >= 1,
        forall|j: int| 0 <= j < s.len() ==> #[trigger] pred(s[j]),
        pred(v),
    ensures
        forall|k: int|
            0 <= k < ring_push(s, cap, v).len() ==> #[trigger] pred(ring_push(s, cap, v)[k]),
{
    let r = ring_push(s, cap, v);
    assert forall|k: int| 0 <= k < r.len() implies pred(r[k]) by {
        if s.len() < cap {
            if k < s.len() {
                assert(r[k] == s[k]);
            } else {
                assert(r[k] == v);
            }
        } else {
            if k < r.len() - 1 {
                assert(s.drop_first()[k] == s[k + 1]);
                assert(r[k] == s[k + 1]);
            } else {
                assert(r[k] == v);
            }
        }
    }
}

pub struct RingQueue<T> {
    items: Vec<T>,
    cap: usize,
}

impl<T> View for RingQueue<T> {
    type V = Seq<T>;

    closed spec fn view(&self) -> Seq<T> {
        self.items@
    }
}

impl<T> RingQueue<T> {
    pub closed spec fn spec_cap(&self) -> nat {
        self.cap as nat
    }

    pub closed spec fn wf(&self) -> bool {
        self.cap >= 1 && self.items@.len() <= self.cap
    }

    pub fn new(cap: usize) -> (q: RingQueue<T>)
        requires
            cap >= 1,
        ensures
            q.wf(),
            q@ == Seq::<T>::empty(),
            q.spec_cap() == cap,
    {
        RingQueue { items: Vec::new(), cap }
    }

    /// Append `v`, dropping the oldest element if the ring is full.
    pub fn push(&mut self, v: T)
        requires
            old(self).wf(),
        ensures
            final(self).wf(),
            final(self).spec_cap() == old(self).spec_cap(),
            final(self)@ == ring_push(old(self)@, old(self).spec_cap(), v),
    {
        if self.items.len() == self.cap {
            let ghost pre = self.items@;
            self.items.remove(0);
            proof {
                assert(self.items@ =~= pre.drop_first());
            }
        }
        self.items.push(v);
    }

    pub fn len(&self) -> (n: usize)
        ensures
            n == self@.len(),
    {
        self.items.len()
    }

    pub fn is_empty(&self) -> (r: bool)
        ensures
            r == (self@.len() == 0),
    {
        self.items.len() == 0
    }

    pub fn capacity(&self) -> (c: usize)
        ensures
            c == self.spec_cap(),
    {
        self.cap
    }

    /// The `i`-th oldest element.
    pub fn get(&self, i: usize) -> (r: &T)
        requires
            i < self@.len(),
        ensures
            *r == self@[i as int],
    {
        &self.items[i]
    }
}

} // verus!
