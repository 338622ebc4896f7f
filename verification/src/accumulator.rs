//! An append-only Merkle accumulator over transaction hashes.
//!
//! The accumulator keeps the roots of the complete binary trees ("frozen
//! subtrees") into which its leaves fall, largest tree first: one tree for
//! every one-bit of the number of leaves. Its root commits to all of them.
//!
//! An accumulator is rebuilt from a checkpoint as the checkpoint stands.
//! A checkpoint that is not one of an accumulator is found out when leaves
//! are to be appended: the append fails and changes nothing.

use crate::hash::{copy_digests, hash_pair, node_hash, H256};
use vstd::prelude::*;

verus! {

/// The largest number of leaves an accumulator holds.
pub const MAX_ACCUMULATOR_LEAVES: u64 = 9223372036854775808;

/// Why an accumulator operation failed.
#[derive(Clone, Copy, Debug, PartialEq, Eq, Structural)]
pub enum AccumulatorError {
    /// There would be more than `MAX_ACCUMULATOR_LEAVES` leaves.
    TooManyLeaves,
    /// A checkpoint does not hold one frozen subtree root for every one-bit
    /// of its number of leaves.
    FrozenSubtreeCountMismatch,
    /// The root of a checkpoint is not the root of its frozen subtrees.
    RootMismatch,
}

/// The views of a sequence of digests.
pub open spec fn digests(v: Seq<H256>) -> Seq<Seq<u8>> {
    v.map_values(|h: H256| h@)
}

/// The number of one-bits of `n`.
pub open spec fn ones(n: nat) -> nat
    decreases n,
{
    if n == 0 {
        0
    } else {
        n % 2 + ones(n / 2)
    }
}

/// The root of an accumulator without leaves: 32 zero bytes.
pub open spec fn placeholder() -> Seq<u8> {
    Seq::new(32, |i: int| 0u8)
}

/// The root over a list of frozen subtree roots: the last two are hashed
/// together, then the one before with the result, up to the first.
pub open spec fn bag(frozen: Seq<Seq<u8>>) -> Seq<u8>
    decreases frozen.len(),
{
    if frozen.len() == 0 {
        placeholder()
    } else if frozen.len() == 1 {
        frozen[0]
    } else {
        node_hash(frozen[0], bag(frozen.skip(1)))
    }
}

/// The frozen subtree roots after a tree with root `node`, as large as the
/// smallest tree that `num_leaves` leaves can end in, joins `frozen`. Where
/// a tree of that size is there already, the two merge into one of twice the
/// size, which joins the rest in turn.
pub open spec fn push_leaf(frozen: Seq<Seq<u8>>, num_leaves: nat, node: Seq<u8>) -> Seq<Seq<u8>>
    decreases num_leaves,
{
    if num_leaves % 2 == 0 || frozen.len() == 0 {
        frozen.push(node)
    } else {
        push_leaf(frozen.drop_last(), num_leaves / 2, node_hash(frozen.last(), node))
    }
}

/// The parents of the nodes taken two by two; a last node without a
/// partner has none.
pub open spec fn pair_up(nodes: Seq<Seq<u8>>) -> Seq<Seq<u8>> {
    Seq::new(nodes.len() / 2, |i: int| node_hash(nodes[2 * i], nodes[2 * i + 1]))
}

/// The frozen subtree roots over a row of nodes: those over the row of
/// their parents, followed by the last node where it has no partner.
pub open spec fn peaks(nodes: Seq<Seq<u8>>) -> Seq<Seq<u8>>
    decreases nodes.len(),
{
    if nodes.len() == 0 {
        Seq::empty()
    } else if nodes.len() % 2 == 1 {
        peaks(pair_up(nodes)).push(nodes.last())
    } else {
        peaks(pair_up(nodes))
    }
}

/// Mathematical value of an accumulator: the number of its leaves, its
/// frozen subtree roots, and the root on record.
pub struct AccumulatorView {
    pub num_leaves: nat,
    pub frozen: Seq<Seq<u8>>,
    pub root_hash: Seq<u8>,
}

/// A checkpoint of an accumulator, from which it can be rebuilt.
#[derive(Clone, Debug, Eq, PartialEq)]
pub struct AccumulatorInfo {
    pub accumulator_root: H256,
    pub frozen_subtree_roots: Vec<H256>,
    pub num_leaves: u64,
}

/// Mathematical value of an `AccumulatorInfo`.
pub struct AccumulatorInfoView {
    pub accumulator_root: Seq<u8>,
    pub frozen_subtree_roots: Seq<Seq<u8>>,
    pub num_leaves: u64,
}

impl View for AccumulatorInfo {
    type V = AccumulatorInfoView;

    open spec fn view(&self) -> AccumulatorInfoView {
        AccumulatorInfoView {
            accumulator_root: self.accumulator_root@,
            frozen_subtree_roots: digests(self.frozen_subtree_roots@),
            num_leaves: self.num_leaves,
        }
    }
}

impl AccumulatorView {
    /// The accumulator without leaves.
    pub open spec fn empty() -> AccumulatorView {
        AccumulatorView { num_leaves: 0, frozen: Seq::empty(), root_hash: placeholder() }
    }

    /// The accumulator that holds `leaves`, oldest first.
    pub open spec fn of_leaves(leaves: Seq<Seq<u8>>) -> AccumulatorView {
        AccumulatorView {
            num_leaves: leaves.len(),
            frozen: peaks(leaves),
            root_hash: bag(peaks(leaves)),
        }
    }

    /// There is one frozen subtree for every one-bit of the number of
    /// leaves, no more leaves than an accumulator holds, and the root on
    /// record is the root over the frozen subtrees.
    pub open spec fn wf(self) -> bool {
        &&& self.frozen.len() == ones(self.num_leaves)
        &&& self.num_leaves <= MAX_ACCUMULATOR_LEAVES
        &&& self.root_hash == bag(self.frozen)
    }

    /// The root.
    pub open spec fn root(self) -> Seq<u8> {
        self.root_hash
    }

    /// What keeps the accumulator from taking `count` more leaves, if
    /// anything: it has no room for them, or its frozen subtrees are not
    /// those of its number of leaves.
    pub open spec fn room_for(self, count: nat) -> Result<(), AccumulatorError> {
        if self.num_leaves + count > MAX_ACCUMULATOR_LEAVES {
            Err(AccumulatorError::TooManyLeaves)
        } else if self.frozen.len() != ones(self.num_leaves) {
            Err(AccumulatorError::FrozenSubtreeCountMismatch)
        } else {
            Ok(())
        }
    }

    /// The accumulator after `leaf` has been appended.
    pub open spec fn append(self, leaf: Seq<u8>) -> AccumulatorView {
        let frozen = push_leaf(self.frozen, self.num_leaves, leaf);
        AccumulatorView { num_leaves: self.num_leaves + 1, frozen, root_hash: bag(frozen) }
    }

    /// The accumulator after `leaves` have been appended, first to last.
    pub open spec fn append_all(self, leaves: Seq<Seq<u8>>) -> AccumulatorView
        decreases leaves.len(),
    {
        if leaves.len() == 0 {
            self
        } else {
            self.append_all(leaves.drop_last()).append(leaves.last())
        }
    }

    /// The checkpoint of the accumulator.
    pub open spec fn info(self) -> AccumulatorInfoView {
        AccumulatorInfoView {
            accumulator_root: self.root(),
            frozen_subtree_roots: self.frozen,
            num_leaves: self.num_leaves as u64,
        }
    }
}

impl AccumulatorInfoView {
    /// What is wrong with the checkpoint, if anything.
    pub open spec fn check(self) -> Result<(), AccumulatorError> {
        if self.num_leaves > MAX_ACCUMULATOR_LEAVES {
            Err(AccumulatorError::TooManyLeaves)
        } else if self.frozen_subtree_roots.len() != ones(self.num_leaves as nat) {
            Err(AccumulatorError::FrozenSubtreeCountMismatch)
        } else if self.accumulator_root != bag(self.frozen_subtree_roots) {
            Err(AccumulatorError::RootMismatch)
        } else {
            Ok(())
        }
    }

    /// Whether the checkpoint is one of an accumulator.
    pub open spec fn valid(self) -> bool {
        self.check() is Ok
    }

    /// The accumulator that is rebuilt from the checkpoint, as it stands.
    pub open spec fn state(self) -> AccumulatorView {
        AccumulatorView {
            num_leaves: self.num_leaves as nat,
            frozen: self.frozen_subtree_roots,
            root_hash: self.accumulator_root,
        }
    }
}

/// A number has at most as many one-bits as its value.
pub proof fn lemma_ones_bound(n: nat)
    ensures
        ones(n) <= n,
    decreases n,
{
    if n > 0 {
        lemma_ones_bound(n / 2);
    }
}

/// Appending keeps one frozen subtree for every one-bit of the number of
/// leaves.
pub proof fn lemma_push_leaf_len(frozen: Seq<Seq<u8>>, num_leaves: nat, node: Seq<u8>)
    requires
        frozen.len() == ones(num_leaves),
    ensures
        push_leaf(frozen, num_leaves, node).len() == ones(num_leaves + 1),
    decreases num_leaves,
{
    if num_leaves % 2 == 0 {
        assert((num_leaves + 1) / 2 == num_leaves / 2);
        if num_leaves == 0 {
            assert(ones(1) == 1 + ones(0));
        }
    } else {
        assert(frozen.len() > 0);
        assert((num_leaves + 1) / 2 == num_leaves / 2 + 1);
        lemma_push_leaf_len(
            frozen.drop_last(),
            num_leaves / 2,
            node_hash(frozen.last(), node),
        );
    }
}

/// The frozen subtrees over a row of nodes are one for every one-bit of
/// its length.
pub proof fn lemma_peaks_len(nodes: Seq<Seq<u8>>)
    ensures
        peaks(nodes).len() == ones(nodes.len()),
    decreases nodes.len(),
{
    if nodes.len() > 0 {
        lemma_peaks_len(pair_up(nodes));
    }
}

/// The frozen subtrees over a row with one more node are those that
/// appending the node to the frozen subtrees over the row gives.
pub proof fn lemma_peaks_push(nodes: Seq<Seq<u8>>, node: Seq<u8>)
    ensures
        peaks(nodes.push(node)) == push_leaf(peaks(nodes), nodes.len(), node),
    decreases nodes.len(),
{
    let longer = nodes.push(node);
    if nodes.len() == 0 {
        assert(pair_up(longer) =~= Seq::<Seq<u8>>::empty());
        assert(peaks(pair_up(longer)) =~= Seq::<Seq<u8>>::empty());
        assert(peaks(nodes) =~= Seq::<Seq<u8>>::empty());
        assert(peaks(longer) == peaks(pair_up(longer)).push(longer.last()));
    } else if nodes.len() % 2 == 0 {
        assert(pair_up(longer) =~= pair_up(nodes));
        assert(peaks(longer) == peaks(pair_up(longer)).push(longer.last()));
        assert(peaks(nodes) == peaks(pair_up(nodes)));
    } else {
        let parent = node_hash(nodes.last(), node);
        assert(pair_up(longer) =~= pair_up(nodes).push(parent));
        lemma_peaks_push(pair_up(nodes), parent);
        lemma_peaks_len(nodes);
        assert(peaks(nodes) == peaks(pair_up(nodes)).push(nodes.last()));
        assert(peaks(nodes).drop_last() =~= peaks(pair_up(nodes)));
        assert(peaks(nodes).last() == nodes.last());
        assert(pair_up(nodes).len() == nodes.len() / 2);
        assert(peaks(longer) == peaks(pair_up(longer)));
        assert(peaks(nodes).len() > 0);
    }
}

/// The accumulator over no leaves is the empty one, and appending a leaf to
/// the accumulator over some leaves gives the accumulator over those leaves
/// and the new one.
pub proof fn lemma_append_of_leaves(leaves: Seq<Seq<u8>>, leaf: Seq<u8>)
    ensures
        AccumulatorView::of_leaves(Seq::empty()) == AccumulatorView::empty(),
        AccumulatorView::of_leaves(leaves).append(leaf) == AccumulatorView::of_leaves(
            leaves.push(leaf),
        ),
{
    lemma_peaks_push(leaves, leaf);
    assert(peaks(Seq::<Seq<u8>>::empty()) =~= Seq::<Seq<u8>>::empty());
    assert(leaves.push(leaf).len() == leaves.len() + 1);
}

/// Appending a batch of leaves to the accumulator over some leaves gives the
/// accumulator over all of them.
pub proof fn lemma_append_all_of_leaves(leaves: Seq<Seq<u8>>, more: Seq<Seq<u8>>)
    ensures
        AccumulatorView::of_leaves(leaves).append_all(more) == AccumulatorView::of_leaves(
            leaves + more,
        ),
    decreases more.len(),
{
    if more.len() == 0 {
        assert(leaves + more =~= leaves);
    } else {
        lemma_append_all_of_leaves(leaves, more.drop_last());
        lemma_append_of_leaves(leaves + more.drop_last(), more.last());
        assert((leaves + more.drop_last()).push(more.last()) =~= leaves + more);
    }
}

/// Appending a batch of one leaf is appending that leaf.
pub proof fn lemma_append_all_single(acc: AccumulatorView, leaf: Seq<u8>)
    ensures
        acc.append_all(seq![leaf]) == acc.append(leaf),
{
    let batch = seq![leaf];
    assert(batch.drop_last() =~= Seq::<Seq<u8>>::empty());
    assert(acc.append_all(batch.drop_last()) == acc);
    assert(batch.last() == leaf);
}

/// An accumulator that can take a leaf is well formed once it has taken
/// it, whatever root was on record before.
pub proof fn lemma_append_wf(acc: AccumulatorView, leaf: Seq<u8>)
    requires
        acc.room_for(1) is Ok,
    ensures
        acc.append(leaf).wf(),
{
    lemma_push_leaf_len(acc.frozen, acc.num_leaves, leaf);
}

/// Appending a batch to an accumulator that can take it adds its length to
/// the number of leaves, leaves an accumulator that can take what room is
/// left, and one that is well formed if the batch is not empty or the
/// accumulator was well formed before.
pub proof fn lemma_append_all_wf(acc: AccumulatorView, leaves: Seq<Seq<u8>>)
    requires
        acc.room_for(leaves.len()) is Ok,
    ensures
        acc.append_all(leaves).num_leaves == acc.num_leaves + leaves.len(),
        acc.append_all(leaves).room_for(0) is Ok,
        leaves.len() > 0 || acc.wf() ==> acc.append_all(leaves).wf(),
    decreases leaves.len(),
{
    if leaves.len() > 0 {
        lemma_append_all_wf(acc, leaves.drop_last());
        lemma_append_wf(acc.append_all(leaves.drop_last()), leaves.last());
    }
}

/// Consistency of checkpoints: the checkpoint of a well-formed accumulator
/// is valid, and the accumulator rebuilt from it is that accumulator, with
/// the same root.
pub proof fn lemma_info_restores(acc: AccumulatorView)
    requires
        acc.wf(),
    ensures
        acc.info().valid(),
        acc.info().state() == acc,
        acc.info().state().root() == acc.root(),
{
}

/// The accumulator rebuilt from a checkpoint, whatever the checkpoint
/// holds, has that checkpoint; it is well formed exactly when the
/// checkpoint is valid.
pub proof fn lemma_state_keeps_info(info: AccumulatorInfoView)
    ensures
        info.state().info() == info,
        info.state().wf() == info.valid(),
{
}

/// The number of one-bits of `n`.
fn count_ones(n: u64) -> (count: u64)
    ensures
        count == ones(n as nat),
{
    let mut m: u64 = n;
    let mut count: u64 = 0;
    while m > 0
        invariant
            count + ones(m as nat) == ones(n as nat),
        decreases m,
    {
        proof {
            lemma_ones_bound(n as nat);
        }
        count = count + m % 2;
        m = m / 2;
    }
    count
}

/// The root over a list of frozen subtree roots.
fn bag_roots(roots: &Vec<H256>) -> (root: H256)
    ensures
        root@ == bag(digests(roots@)),
{
    let n = roots.len();
    if n == 0 {
        let zero = H256::zero();
        assert(zero@ =~= placeholder());
        return zero;
    }
    let ghost all = digests(roots@);
    let mut i: usize = n - 1;
    let mut root = roots[i];
    assert(all.skip(i as int).len() == 1);
    while i > 0
        invariant
            i < n,
            n == roots@.len(),
            all == digests(roots@),
            root@ == bag(all.skip(i as int)),
        decreases i,
    {
        i = i - 1;
        assert(all.skip(i as int).skip(1) =~= all.skip(i + 1));
        root = hash_pair(&roots[i], &root);
    }
    assert(all.skip(0) =~= all);
    root
}

impl AccumulatorInfo {
    /// The checkpoint of the accumulator without leaves.
    pub fn empty() -> (info: AccumulatorInfo)
        ensures
            info@ == AccumulatorView::empty().info(),
            info@.valid(),
    {
        let zero = H256::zero();
        let info = AccumulatorInfo {
            accumulator_root: zero,
            frozen_subtree_roots: Vec::new(),
            num_leaves: 0,
        };
        assert(zero@ =~= placeholder());
        assert(info@.frozen_subtree_roots =~= Seq::<Seq<u8>>::empty());
        info
    }

    /// A copy of the checkpoint.
    pub fn duplicate(&self) -> (copy: AccumulatorInfo)
        ensures
            copy@ == self@,
    {
        AccumulatorInfo {
            accumulator_root: self.accumulator_root,
            frozen_subtree_roots: copy_digests(self.frozen_subtree_roots.as_slice()),
            num_leaves: self.num_leaves,
        }
    }

    /// Checks that the checkpoint is one of an accumulator.
    pub fn check(&self) -> (r: Result<(), AccumulatorError>)
        ensures
            r == self@.check(),
    {
        if self.num_leaves > MAX_ACCUMULATOR_LEAVES {
            return Err(AccumulatorError::TooManyLeaves);
        }
        if self.frozen_subtree_roots.len() as u64 != count_ones(self.num_leaves) {
            return Err(AccumulatorError::FrozenSubtreeCountMismatch);
        }
        let root = bag_roots(&self.frozen_subtree_roots);
        if root != self.accumulator_root {
            return Err(AccumulatorError::RootMismatch);
        }
        Ok(())
    }
}

/// The accumulator. Its view is the number of its leaves and its frozen
/// subtree roots.
pub struct MerkleAccumulator {
    frozen_subtree_roots: Vec<H256>,
    num_leaves: u64,
    root_hash: H256,
    unflushed: Vec<H256>,
}

impl View for MerkleAccumulator {
    type V = AccumulatorView;

    closed spec fn view(&self) -> AccumulatorView {
        AccumulatorView {
            num_leaves: self.num_leaves as nat,
            frozen: digests(self.frozen_subtree_roots@),
            root_hash: self.root_hash@,
        }
    }
}

impl MerkleAccumulator {
    /// The leaves appended since the last flush, oldest first.
    pub closed spec fn pending(&self) -> Seq<Seq<u8>> {
        digests(self.unflushed@)
    }

    /// Whether the accumulator is well formed. One that was built by
    /// appending is; one that was rebuilt from a checkpoint is if the
    /// checkpoint is valid.
    pub open spec fn wf(&self) -> bool {
        self@.wf()
    }

    /// The accumulator without leaves.
    pub fn new() -> (acc: MerkleAccumulator)
        ensures
            acc.wf(),
            acc@ == AccumulatorView::empty(),
            acc.pending() == Seq::<Seq<u8>>::empty(),
    {
        let zero = H256::zero();
        assert(zero@ =~= placeholder());
        let acc = MerkleAccumulator {
            frozen_subtree_roots: Vec::new(),
            num_leaves: 0,
            root_hash: zero,
            unflushed: Vec::new(),
        };
        assert(acc@.frozen =~= Seq::<Seq<u8>>::empty());
        assert(acc.pending() =~= Seq::<Seq<u8>>::empty());
        acc
    }

    /// Rebuilds the accumulator from a checkpoint, as the checkpoint stands
    /// and with nothing to flush. Its checkpoint is the one given. Where the
    /// checkpoint is valid the accumulator is well formed; where it is not,
    /// `append` says so.
    pub fn new_with_info(info: AccumulatorInfo) -> (acc: MerkleAccumulator)
        ensures
            acc@ == info@.state(),
            acc@.info() == info@,
            acc.wf() == info@.valid(),
            acc.pending() == Seq::<Seq<u8>>::empty(),
    {
        let acc = MerkleAccumulator {
            frozen_subtree_roots: info.frozen_subtree_roots,
            num_leaves: info.num_leaves,
            root_hash: info.accumulator_root,
            unflushed: Vec::new(),
        };
        assert(acc.pending() =~= Seq::<Seq<u8>>::empty());
        acc
    }

    /// The number of leaves.
    pub fn num_leaves(&self) -> (n: u64)
        ensures
            n == self@.num_leaves,
    {
        self.num_leaves
    }

    /// The root.
    pub fn root_hash(&self) -> (root: H256)
        ensures
            root@ == self@.root(),
    {
        self.root_hash
    }

    /// The checkpoint: the root, the frozen subtree roots and the number of
    /// leaves. Rebuilding from it gives this accumulator; the checkpoint of
    /// a well-formed accumulator is valid.
    pub fn get_info(&self) -> (info: AccumulatorInfo)
        ensures
            info@ == self@.info(),
            info@.state() == self@,
            info@.valid() == self.wf(),
    {
        AccumulatorInfo {
            accumulator_root: self.root_hash,
            frozen_subtree_roots: copy_digests(self.frozen_subtree_roots.as_slice()),
            num_leaves: self.num_leaves,
        }
    }

    /// What keeps the accumulator from taking `count` more leaves, if
    /// anything.
    pub fn room_for(&self, count: usize) -> (r: Result<(), AccumulatorError>)
        ensures
            r == self@.room_for(count as nat),
    {
        if self.num_leaves > MAX_ACCUMULATOR_LEAVES || count as u64 > MAX_ACCUMULATOR_LEAVES
            - self.num_leaves {
            return Err(AccumulatorError::TooManyLeaves);
        }
        if self.frozen_subtree_roots.len() as u64 != count_ones(self.num_leaves) {
            return Err(AccumulatorError::FrozenSubtreeCountMismatch);
        }
        Ok(())
    }

    /// Appends a leaf to the frozen subtrees; the root on record stays
    /// behind until `append` has taken the whole batch.
    fn append_one(&mut self, leaf: H256)
        requires
            old(self)@.room_for(1) is Ok,
        ensures
            final(self)@.num_leaves == old(self)@.num_leaves + 1,
            final(self)@.frozen == push_leaf(old(self)@.frozen, old(self)@.num_leaves, leaf@),
            final(self)@.root_hash == old(self)@.root_hash,
            final(self).pending() == old(self).pending().push(leaf@),
    {
        let ghost start = self@;
        let ghost pending = self.pending();
        let mut node = leaf;
        let mut n: u64 = self.num_leaves;
        while n % 2 == 1
            invariant
                self.num_leaves == start.num_leaves,
                self.root_hash == old(self).root_hash,
                self.unflushed == old(self).unflushed,
                self.frozen_subtree_roots@.len() == ones(n as nat),
                push_leaf(start.frozen, start.num_leaves, leaf@) == push_leaf(
                    digests(self.frozen_subtree_roots@),
                    n as nat,
                    node@,
                ),
            decreases n,
        {
            let ghost frozen = digests(self.frozen_subtree_roots@);
            assert(frozen.len() > 0);
            let left = self.frozen_subtree_roots.pop().unwrap();
            assert(digests(self.frozen_subtree_roots@) =~= frozen.drop_last());
            assert(left@ == frozen.last());
            node = hash_pair(&left, &node);
            n = n / 2;
        }
        let ghost frozen = digests(self.frozen_subtree_roots@);
        self.frozen_subtree_roots.push(node);
        assert(digests(self.frozen_subtree_roots@) =~= frozen.push(node@));
        self.num_leaves = self.num_leaves + 1;
        self.unflushed.push(leaf);
        assert(self.pending() =~= pending.push(leaf@));
    }

    /// Appends leaves, first to last, and returns the new root. It fails,
    /// and changes nothing, exactly when the accumulator cannot take them:
    /// it has no room for them, or its frozen subtrees are not those of its
    /// number of leaves.
    pub fn append(&mut self, leaves: &[H256]) -> (r: Result<H256, AccumulatorError>)
        ensures
            match old(self)@.room_for(leaves@.len()) {
                Ok(_) => {
                    &&& r matches Ok(root)
                    &&& root@ == final(self)@.root()
                    &&& final(self)@ == old(self)@.append_all(digests(leaves@))
                    &&& final(self).pending() == old(self).pending() + digests(leaves@)
                },
                Err(e) => r matches Err(x) && x == e && *final(self) == *old(self),
            },
            old(self).wf() ==> final(self).wf(),
            r is Ok && leaves@.len() > 0 ==> final(self).wf(),
    {
        match self.room_for(leaves.len()) {
            Ok(_) => {},
            Err(e) => { return Err(e); },
        }
        let ghost start = self@;
        let ghost pending = self.pending();
        let ghost all = digests(leaves@);
        proof {
            lemma_append_all_wf(start, all);
        }
        if leaves.len() == 0 {
            assert(all =~= Seq::<Seq<u8>>::empty());
            assert(pending + all =~= pending);
            return Ok(self.root_hash);
        }
        let mut i: usize = 0;
        assert(all.take(0) =~= Seq::<Seq<u8>>::empty());
        assert(pending + all.take(0) =~= pending);
        while i < leaves.len()
            invariant
                i <= leaves@.len(),
                all == digests(leaves@),
                start.room_for(leaves@.len() as nat) is Ok,
                self@.num_leaves == start.num_leaves + i,
                self@.num_leaves == start.append_all(all.take(i as int)).num_leaves,
                self@.frozen == start.append_all(all.take(i as int)).frozen,
                self@.frozen.len() == ones(self@.num_leaves),
                self.pending() == pending + all.take(i as int),
            decreases leaves@.len() - i,
        {
            let ghost before = self.pending();
            let ghost taken = start.append_all(all.take(i as int));
            self.append_one(leaves[i]);
            proof {
                assert(all.take(i + 1).drop_last() =~= all.take(i as int));
                assert(all.take(i + 1).last() == leaves@[i as int]@);
                assert(start.append_all(all.take(i + 1)) == taken.append(leaves@[i as int]@));
                assert(before.push(leaves@[i as int]@) =~= pending + all.take(i + 1));
                lemma_push_leaf_len(taken.frozen, taken.num_leaves, leaves@[i as int]@);
            }
            i += 1;
        }
        assert(all.take(leaves@.len() as int) =~= all);
        self.root_hash = bag_roots(&self.frozen_subtree_roots);
        assert(all.drop_last().len() + 1 == all.len());
        Ok(self.root_hash)
    }

    /// Hands out the leaves appended since the last flush, oldest first, for
    /// the caller to write to durable storage. Nothing is pending afterwards.
    pub fn flush(&mut self) -> (leaves: Vec<H256>)
        ensures
            digests(leaves@) == old(self).pending(),
            final(self).pending() == Seq::<Seq<u8>>::empty(),
            final(self)@ == old(self)@,
    {
        let mut leaves: Vec<H256> = Vec::new();
        std::mem::swap(&mut self.unflushed, &mut leaves);
        assert(self.pending() =~= Seq::<Seq<u8>>::empty());
        leaves
    }
}

} // verus!
