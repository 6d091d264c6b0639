//! Coverage model and the process-wide coverage store.
//!
//! `Block` is a raw basic-block identifier reported by the guest's coverage
//! instrumentation; `Branch` condenses an ordered pair of successive blocks
//! into a single hashed identifier. `FeedBack` accumulates every block and
//! branch observed so far and answers which of a batch are new.

use vstd::prelude::*;
use vstd::seq_lib::lemma_seq_contains_after_push;

verus! {

/// A basic-block identifier from the target kernel's coverage instrumentation.
#[derive(Clone, Copy, Debug, PartialEq, Eq, Hash, Structural)]
pub struct Block(pub u64);

impl From<u64> for Block {
    fn from(raw: u64) -> (b: Block) {
        Block(raw)
    }
}

impl vstd::std_specs::convert::FromSpecImpl<u64> for Block {
    open spec fn obeys_from_spec() -> bool {
        true
    }

    open spec fn from_spec(raw: u64) -> Block {
        Block(raw)
    }
}

/// The mixing function that condenses an ordered pair of blocks `(b1, b2)`
/// into one branch identifier: a bit-mixing of `b1`, XOR'd with `b2`.
/// All additions and multiplications wrap.
pub open spec fn branch_hash(b1: u64, b2: u64) -> u64 {
    let a0 = b1;
    let a1 = (a0 ^ 61) ^ (a0 >> 16);
    let a2 = a1.wrapping_add(a1 << 3);
    let a3 = a2 ^ (a2 >> 4);
    let a4 = a3.wrapping_mul(0x27d4_eb2d);
    let a5 = a4 ^ (a4 >> 15);
    a5 ^ b2
}

/// A hashed representation of an ordered pair of consecutively executed blocks.
#[derive(Clone, Copy, Debug, PartialEq, Eq, Hash, Structural)]
pub struct Branch(pub u64);

impl From<(Block, Block)> for Branch {
    fn from(pair: (Block, Block)) -> (br: Branch)
        ensures
            br.0 == branch_hash(pair.0.0, pair.1.0),
    {
        let a0: u64 = pair.0.0;
        let a1: u64 = (a0 ^ 61) ^ (a0 >> 16);
        let a2: u64 = a1.wrapping_add(a1 << 3);
        let a3: u64 = a2 ^ (a2 >> 4);
        let a4: u64 = a3.wrapping_mul(0x27d4_eb2d);
        let a5: u64 = a4 ^ (a4 >> 15);
        Branch(a5 ^ pair.1.0)
    }
}

impl vstd::std_specs::convert::FromSpecImpl<(Block, Block)> for Branch {
    open spec fn obeys_from_spec() -> bool {
        true
    }

    open spec fn from_spec(pair: (Block, Block)) -> Branch {
        Branch(branch_hash(pair.0.0, pair.1.0))
    }
}

/// A finite set of coverage identifiers, kept as a duplicate-free vector.
///
/// Both new-block and new-branch sets are values of this type; the abstract
/// value is the set of identifiers held.
pub struct CovSet {
    items: Vec<u64>,
}

impl View for CovSet {
    type V = Set<u64>;

    closed spec fn view(&self) -> Set<u64> {
        self.items@.to_set()
    }
}

impl CovSet {
    /// The representation holds each identifier at most once.
    pub closed spec fn wf(&self) -> bool {
        self.items@.no_duplicates()
    }

    pub fn new() -> (s: CovSet)
        ensures
            s.wf(),
            s@ == Set::<u64>::empty(),
    {
        let s = CovSet { items: Vec::new() };
        proof {
            assert(s@ =~= Set::<u64>::empty());
        }
        s
    }

    pub fn contains(&self, x: u64) -> (r: bool)
        ensures
            r == self@.contains(x),
    {
        let mut i: usize = 0;
        while i < self.items.len()
            invariant
                i <= self.items.len(),
                forall|k: int| 0 <= k < i ==> self.items@[k] != x,
            decreases self.items.len() - i,
        {
            if self.items[i] == x {
                assert(self.items@.contains(x));
                return true;
            }
            i += 1;
        }
        assert(!self.items@.contains(x));
        false
    }

    pub fn insert(&mut self, x: u64)
        requires
            old(self).wf(),
        ensures
            final(self).wf(),
            final(self)@ == old(self)@.insert(x),
    {
        if !self.contains(x) {
            let ghost pre = self.items@;
            self.items.push(x);
            proof {
                assert forall|i: int, j: int|
                    0 <= i < self.items@.len() && 0 <= j < self.items@.len() && i != j implies
                    self.items@[i] != self.items@[j] by {
                    if i < pre.len() && j < pre.len() {
                        assert(pre[i] != pre[j]);
                    } else if i < pre.len() {
                        assert(pre.contains(pre[i]) ==> pre[i] != x) by {
                            if pre.contains(x) {
                                assert(pre.to_set().contains(x));
                            }
                        }
                        assert(pre.contains(pre[i]));
                    } else if j < pre.len() {
                        assert(pre.contains(pre[j]));
                        if pre.contains(x) {
                            assert(pre.to_set().contains(x));
                        }
                    }
                }
                assert(self@ =~= old(self)@.insert(x)) by {
                    assert forall|y: u64| self@.contains(y) <==> old(self)@.insert(x).contains(
                        y,
                    ) by {
                        lemma_seq_contains_after_push(pre, x, y);
                    }
                }
            }
        } else {
            proof {
                assert(self@ =~= old(self)@.insert(x));
            }
        }
    }

    /// Insert every element of `other`.
    pub fn union_with(&mut self, other: &CovSet)
        requires
            old(self).wf(),
        ensures
            final(self).wf(),
            final(self)@ == old(self)@ + other@,
    {
        let mut i: usize = 0;
        while i < other.items.len()
            invariant
                i <= other.items.len(),
                self.wf(),
                self@ == old(self)@ + other.items@.take(i as int).to_set(),
            decreases other.items.len() - i,
        {
            let ghost prefix = other.items@.take(i as int);
            self.insert(other.items[i]);
            proof {
                assert(other.items@.take(i + 1) =~= prefix.push(other.items@[i as int]));
                assert forall|y: u64| other.items@.take(i + 1).to_set().contains(y)
                    <==> prefix.to_set().insert(other.items@[i as int]).contains(y) by {
                    lemma_seq_contains_after_push(prefix, other.items@[i as int], y);
                }
                assert(other.items@.take(i + 1).to_set() =~= prefix.to_set().insert(
                    other.items@[i as int],
                ));
                assert(self@ =~= old(self)@ + other.items@.take(i + 1).to_set());
            }
            i += 1;
        }
        proof {
            assert(other.items@.take(other.items@.len() as int) =~= other.items@);
            assert(self@ =~= old(self)@ + other@);
        }
    }

    /// The set of identifiers present in both `self` and `other`.
    pub fn intersect(&self, other: &CovSet) -> (r: CovSet)
        ensures
            r.wf(),
            r@ == self@.intersect(other@),
    {
        let mut r = CovSet::new();
        let mut i: usize = 0;
        while i < self.items.len()
            invariant
                i <= self.items.len(),
                r.wf(),
                r@ == self.items@.take(i as int).to_set().intersect(other@),
            decreases self.items.len() - i,
        {
            let ghost prefix = self.items@.take(i as int);
            let x = self.items[i];
            if other.contains(x) {
                assert(self.items@.contains(x));
                assert(self@.contains(x));
                r.insert(x);
            }
            proof {
                assert(self.items@.take(i + 1) =~= prefix.push(self.items@[i as int]));
                assert forall|y: u64| #[trigger] self.items@.take(i + 1).to_set().contains(y)
                    <==> prefix.to_set().contains(y) || y == self.items@[i as int] by {
                    lemma_seq_contains_after_push(prefix, self.items@[i as int], y);
                }
                assert(r@ =~= self.items@.take(i + 1).to_set().intersect(other@)) by {
                    assert forall|y: u64| r@.contains(y) <==> self.items@.take(
                        i + 1,
                    ).to_set().contains(y) && other@.contains(y) by {
                        assert(self.items@.take(i + 1).to_set().contains(y) <==> prefix.to_set()
                            .contains(y) || y == self.items@[i as int]);
                    }
                }
            }
            i += 1;
        }
        proof {
            assert(self.items@.take(self.items@.len() as int) =~= self.items@);
            assert(r@ =~= self@.intersect(other@));
        }
        r
    }

    pub fn len(&self) -> (n: usize)
        requires
            self.wf(),
        ensures
            n == self@.len(),
    {
        proof {
            self.items@.unique_seq_to_set();
        }
        self.items.len()
    }

    pub fn is_empty(&self) -> (r: bool)
        requires
            self.wf(),
        ensures
            r == (self@.len() == 0),
            r == self@.is_empty(),
    {
        proof {
            self.items@.unique_seq_to_set();
            if self.items@.len() == 0 {
                assert(self.items@ =~= Seq::<u64>::empty());
                assert(self@ =~= Set::<u64>::empty());
            } else {
                assert(self.items@.contains(self.items@[0]));
                assert(self@.contains(self.items@[0]));
            }
        }
        self.items.len() == 0
    }
}

/// The abstract value of a `FeedBack` store: the sets of blocks and branches
/// observed so far.
pub struct FeedBackView {
    pub blocks: Set<u64>,
    pub branches: Set<u64>,
}

/// Accumulated global coverage: every block and branch observed so far.
/// The store only ever grows; no element is removed.
pub struct FeedBack {
    blocks: CovSet,
    branches: CovSet,
}

impl View for FeedBack {
    type V = FeedBackView;

    closed spec fn view(&self) -> FeedBackView {
        FeedBackView { blocks: self.blocks@, branches: self.branches@ }
    }
}

impl Default for FeedBack {
    fn default() -> (fb: FeedBack)
        ensures
            fb.wf(),
            fb@.blocks == Set::<u64>::empty(),
            fb@.branches == Set::<u64>::empty(),
    {
        FeedBack::new()
    }
}

impl FeedBack {
    pub closed spec fn wf(&self) -> bool {
        self.blocks.wf() && self.branches.wf()
    }

    pub fn new() -> (fb: FeedBack)
        ensures
            fb.wf(),
            fb@.blocks == Set::<u64>::empty(),
            fb@.branches == Set::<u64>::empty(),
    {
        FeedBack { blocks: CovSet::new(), branches: CovSet::new() }
    }

    /// The subset of `branches` that the store has not seen yet.
    pub fn diff_branch(&self, branches: &[Branch]) -> (r: CovSet)
        ensures
            r.wf(),
            r@ == branch_ids(branches@).to_set().difference(self@.branches),
    {
        let mut r = CovSet::new();
        let mut i: usize = 0;
        while i < branches.len()
            invariant
                i <= branches.len(),
                r.wf(),
                r@ == branch_ids(branches@).take(i as int).to_set().difference(self@.branches),
            decreases branches.len() - i,
        {
            let ghost prefix = branch_ids(branches@).take(i as int);
            let x = branches[i].0;
            assert(branch_ids(branches@)[i as int] == x);
            if !self.branches.contains(x) {
                r.insert(x);
            }
            proof {
                assert(branch_ids(branches@).take(i + 1) =~= prefix.push(x));
                assert forall|y: u64| #[trigger] branch_ids(branches@).take(i + 1).to_set()
                    .contains(y) <==> prefix.to_set().contains(y) || y == x by {
                    lemma_seq_contains_after_push(prefix, x, y);
                }
                assert(r@ =~= branch_ids(branches@).take(i + 1).to_set().difference(
                    self@.branches,
                )) by {
                    assert forall|y: u64| r@.contains(y) <==> branch_ids(branches@).take(
                        i + 1,
                    ).to_set().contains(y) && !self@.branches.contains(y) by {
                        assert(branch_ids(branches@).take(i + 1).to_set().contains(y)
                            <==> prefix.to_set().contains(y) || y == x);
                    }
                }
            }
            i += 1;
        }
        proof {
            assert(branch_ids(branches@).take(branches@.len() as int) =~= branch_ids(branches@));
        }
        r
    }

    /// The subset of `blocks` that the store has not seen yet.
    pub fn diff_block(&self, blocks: &[Block]) -> (r: CovSet)
        ensures
            r.wf(),
            r@ == block_ids(blocks@).to_set().difference(self@.blocks),
    {
        let mut r = CovSet::new();
        let mut i: usize = 0;
        while i < blocks.len()
            invariant
                i <= blocks.len(),
                r.wf(),
                r@ == block_ids(blocks@).take(i as int).to_set().difference(self@.blocks),
            decreases blocks.len() - i,
        {
            let ghost prefix = block_ids(blocks@).take(i as int);
            let x = blocks[i].0;
            assert(block_ids(blocks@)[i as int] == x);
            if !self.blocks.contains(x) {
                r.insert(x);
            }
            proof {
                assert(block_ids(blocks@).take(i + 1) =~= prefix.push(x));
                assert forall|y: u64| #[trigger] block_ids(blocks@).take(i + 1).to_set().contains(
                    y,
                ) <==> prefix.to_set().contains(y) || y == x by {
                    lemma_seq_contains_after_push(prefix, x, y);
                }
                assert(r@ =~= block_ids(blocks@).take(i + 1).to_set().difference(self@.blocks))
                    by {
                    assert forall|y: u64| r@.contains(y) <==> block_ids(blocks@).take(
                        i + 1,
                    ).to_set().contains(y) && !self@.blocks.contains(y) by {
                        assert(block_ids(blocks@).take(i + 1).to_set().contains(y)
                            <==> prefix.to_set().contains(y) || y == x);
                    }
                }
            }
            i += 1;
        }
        proof {
            assert(block_ids(blocks@).take(blocks@.len() as int) =~= block_ids(blocks@));
        }
        r
    }

    /// Union the given new coverage into the store. Already-present elements
    /// are a no-op, so merging overlapping sets twice is idempotent.
    pub fn merge(&mut self, blocks: &CovSet, branches: &CovSet)
        requires
            old(self).wf(),
        ensures
            final(self).wf(),
            final(self)@.blocks == old(self)@.blocks + blocks@,
            final(self)@.branches == old(self)@.branches + branches@,
    {
        self.blocks.union_with(blocks);
        self.branches.union_with(branches);
    }

    /// True when either stored set is still empty.
    pub fn is_empty(&self) -> (r: bool)
        requires
            self.wf(),
        ensures
            r == (self@.blocks.len() == 0 || self@.branches.len() == 0),
    {
        self.blocks.is_empty() || self.branches.is_empty()
    }

    /// Number of stored blocks and branches, in that order.
    pub fn len(&self) -> (r: (usize, usize))
        requires
            self.wf(),
        ensures
            r.0 == self@.blocks.len(),
            r.1 == self@.branches.len(),
    {
        (self.blocks.len(), self.branches.len())
    }
}

/// The identifiers of a sequence of blocks.
pub open spec fn block_ids(blocks: Seq<Block>) -> Seq<u64> {
    blocks.map_values(|b: Block| b.0)
}

/// The identifiers of a sequence of branches.
pub open spec fn branch_ids(branches: Seq<Branch>) -> Seq<u64> {
    branches.map_values(|b: Branch| b.0)
}

/// `s` is strictly increasing: sorted and free of duplicates.
pub open spec fn strictly_sorted(s: Seq<u64>) -> bool {
    forall|i: int, j: int| 0 <= i < j < s.len() ==> s[i] < s[j]
}

/// Insert `x` into the strictly sorted vector `v`, keeping it strictly
/// sorted; present elements are left alone.
fn insert_unique_sorted(v: &mut Vec<u64>, x: u64)
    requires
        strictly_sorted(old(v)@),
    ensures
        strictly_sorted(final(v)@),
        final(v)@.to_set() == old(v)@.to_set().insert(x),
{
    let mut j: usize = 0;
    while j < v.len() && v[j] < x
        invariant
            j <= v@.len(),
            v@ == old(v)@,
            forall|k: int| 0 <= k < j ==> v@[k] < x,
        decreases v@.len() - j,
    {
        j += 1;
    }
    if j < v.len() && v[j] == x {
        proof {
            assert(v@.contains(x));
            assert(v@.to_set() =~= old(v)@.to_set().insert(x));
        }
    } else {
        let ghost pre = v@;
        v.insert(j, x);
        proof {
            pre.insert_ensures(j as int, x);
            assert forall|a: int, b: int| 0 <= a < b < v@.len() implies v@[a] < v@[b] by {
                if b < j {
                    assert(v@[a] == pre[a] && v@[b] == pre[b]);
                } else if b == j {
                    assert(v@[a] == pre[a] && v@[b] == x);
                } else {
                    assert(v@[b] == pre[b - 1]);
                    if j < pre.len() {
                        assert(pre[j as int] > x);
                    }
                    if a < j {
                        assert(v@[a] == pre[a] && pre[a] < x);
                        assert(x <= pre[b - 1]);
                    } else if a == j {
                        assert(v@[a] == x);
                        assert(x < pre[b - 1]);
                    } else {
                        assert(v@[a] == pre[a - 1]);
                    }
                }
            }
            assert(v@.to_set() =~= pre.to_set().insert(x)) by {
                assert forall|y: u64| v@.to_set().contains(y) <==> pre.to_set().contains(y) || y
                    == x by {
                    if v@.contains(y) {
                        let k = choose|k: int| 0 <= k < v@.len() && v@[k] == y;
                        if k < j {
                            assert(pre[k] == y);
                            assert(pre.contains(y));
                        } else if k > j {
                            assert(pre[k - 1] == y);
                            assert(pre.contains(y));
                        }
                    }
                    if pre.contains(y) {
                        let k = choose|k: int| 0 <= k < pre.len() && pre[k] == y;
                        if k < j {
                            assert(v@[k] == y);
                        } else {
                            assert(v@[k + 1] == y);
                        }
                        assert(v@.contains(y));
                    }
                    if y == x {
                        assert(v@[j as int] == x);
                        assert(v@.contains(x));
                    }
                }
            }
        }
    }
}

/// Sort the given identifiers ascending and drop duplicates.
pub fn sort_dedup(input: &[u64]) -> (r: Vec<u64>)
    ensures
        strictly_sorted(r@),
        r@.to_set() == input@.to_set(),
{
    let mut r: Vec<u64> = Vec::new();
    let mut i: usize = 0;
    proof {
        assert(Seq::<u64>::empty().to_set() =~= input@.take(0).to_set()) by {
            assert(input@.take(0) =~= Seq::<u64>::empty());
        }
    }
    while i < input.len()
        invariant
            i <= input@.len(),
            strictly_sorted(r@),
            r@.to_set() == input@.take(i as int).to_set(),
        decreases input@.len() - i,
    {
        insert_unique_sorted(&mut r, input[i]);
        proof {
            assert(input@.take(i + 1) =~= input@.take(i as int) + seq![input@[i as int]]);
            Seq::lemma_to_set_insert_commutes(input@.take(i as int), input@[i as int]);
        }
        i += 1;
    }
    proof {
        assert(input@.take(input@.len() as int) =~= input@);
    }
    r
}

/// The branch identifiers formed by each pair of successive blocks of a raw
/// trace. An empty or single-block trace yields none.
pub open spec fn trace_branches(raw: Seq<u64>) -> Seq<u64> {
    if raw.len() <= 1 {
        Seq::empty()
    } else {
        Seq::new((raw.len() - 1) as nat, |i: int| branch_hash(raw[i], raw[i + 1]))
    }
}

/// Turn one call's raw block trace into its deduplicated, ascending block
/// and branch lists.
pub fn cook_raw_block(raw: &[u64]) -> (r: (Vec<Block>, Vec<Branch>))
    ensures
        strictly_sorted(block_ids(r.0@)),
        block_ids(r.0@).to_set() == raw@.to_set(),
        strictly_sorted(branch_ids(r.1@)),
        branch_ids(r.1@).to_set() == trace_branches(raw@).to_set(),
{
    let sorted_blocks = sort_dedup(raw);
    let mut blocks: Vec<Block> = Vec::new();
    let mut i: usize = 0;
    while i < sorted_blocks.len()
        invariant
            i <= sorted_blocks@.len(),
            blocks@.len() == i,
            forall|k: int| 0 <= k < i ==> blocks@[k].0 == sorted_blocks@[k],
        decreases sorted_blocks@.len() - i,
    {
        blocks.push(Block(sorted_blocks[i]));
        i += 1;
    }
    proof {
        assert(block_ids(blocks@) =~= sorted_blocks@);
    }

    let mut raw_branches: Vec<u64> = Vec::new();
    if raw.len() > 1 {
        let mut k: usize = 0;
        while k < raw.len() - 1
            invariant
                raw@.len() > 1,
                k <= raw@.len() - 1,
                raw_branches@ == trace_branches(raw@).take(k as int),
            decreases raw@.len() - 1 - k,
        {
            let b = Branch::from((Block(raw[k]), Block(raw[k + 1])));
            raw_branches.push(b.0);
            proof {
                assert(raw_branches@ =~= trace_branches(raw@).take(k + 1));
            }
            k += 1;
        }
    }
    proof {
        assert(raw_branches@ =~= trace_branches(raw@));
    }
    let sorted_branches = sort_dedup(raw_branches.as_slice());
    let mut branches: Vec<Branch> = Vec::new();
    let mut i: usize = 0;
    while i < sorted_branches.len()
        invariant
            i <= sorted_branches@.len(),
            branches@.len() == i,
            forall|k: int| 0 <= k < i ==> branches@[k].0 == sorted_branches@[k],
        decreases sorted_branches@.len() - i,
    {
        branches.push(Branch(sorted_branches[i]));
        i += 1;
    }
    proof {
        assert(branch_ids(branches@) =~= sorted_branches@);
    }
    (blocks, branches)
}

/// The store contents after a sequence of merges into an initial store.
pub open spec fn cov_after_merges(init: Set<u64>, merges: Seq<Set<u64>>) -> Set<u64>
    decreases merges.len(),
{
    if merges.len() == 0 {
        init
    } else {
        cov_after_merges(init, merges.drop_last()) + merges.last()
    }
}

/// Every merged set is contained in the store afterwards: merges only grow
/// the store.
pub proof fn lemma_merges_monotone(init: Set<u64>, merges: Seq<Set<u64>>, i: int)
    requires
        0 <= i < merges.len(),
    ensures
        merges[i].subset_of(cov_after_merges(init, merges)),
        init.subset_of(cov_after_merges(init, merges)),
    decreases merges.len(),
{
    if i == merges.len() - 1 {
        if merges.len() > 1 {
            lemma_merges_monotone(init, merges.drop_last(), 0);
        }
    } else {
        lemma_merges_monotone(init, merges.drop_last(), i);
    }
}

/// What a diff reports against the store after any sequence of merges holds
/// no element that any of those merges (nor the initial store) ever
/// contained: only never-merged elements are reported as new.
pub proof fn lemma_diff_after_merges_is_new(
    init: Set<u64>,
    merges: Seq<Set<u64>>,
    xs: Set<u64>,
    i: int,
)
    requires
        0 <= i < merges.len(),
    ensures
        xs.difference(cov_after_merges(init, merges)).disjoint(merges[i]),
        xs.difference(cov_after_merges(init, merges)).disjoint(init),
{
    lemma_merges_monotone(init, merges, i);
    assert(xs.difference(cov_after_merges(init, merges)).disjoint(merges[i])) by {
        assert forall|y: u64|
            xs.difference(cov_after_merges(init, merges)).contains(y) implies !merges[i].contains(
            y,
        ) by {
            if merges[i].contains(y) {
                assert(cov_after_merges(init, merges).contains(y));
            }
        }
    }
    assert forall|y: u64|
        xs.difference(cov_after_merges(init, merges)).contains(y) implies !init.contains(y) by {
        if init.contains(y) {
            assert(cov_after_merges(init, merges).contains(y));
        }
    }
}

} // verus!
