//! The leaves that a node knows, kept under their commitments, and the walks
//! along the links from a leaf to its ancestors.

use vstd::prelude::*;
use crate::data::{Commitment, Leaf, LeafRecord, ViewNumber};
use crate::election::VoteToken;

verus! {

/// Whether a leaf with this commitment is among `leaves`.
pub open spec fn has_leaf<T>(leaves: Seq<LeafRecord<T>>, commitment: Commitment) -> bool {
    exists|i: int| 0 <= i < leaves.len() && #[trigger] leaves[i].commitment == commitment
}

/// The leaf with this commitment among `leaves`.
pub open spec fn leaf_of<T>(leaves: Seq<LeafRecord<T>>, commitment: Commitment) -> LeafRecord<T> {
    leaves[choose|i: int| 0 <= i < leaves.len() && #[trigger] leaves[i].commitment == commitment]
}

/// Whether no two leaves have the same commitment.
pub open spec fn commitments_distinct<T>(leaves: Seq<LeafRecord<T>>) -> bool {
    forall|i: int, j: int|
        0 <= i < j < leaves.len() ==> #[trigger] leaves[i].commitment != #[trigger] leaves[j].commitment
}

/// Where the commitments are distinct, the leaf with a commitment is the
/// leaf at any place that holds that commitment.
pub proof fn lemma_leaf_of<T>(leaves: Seq<LeafRecord<T>>, i: int)
    requires
        commitments_distinct(leaves),
        0 <= i < leaves.len(),
    ensures
        has_leaf(leaves, leaves[i].commitment),
        leaf_of(leaves, leaves[i].commitment) == leaves[i],
{
    let c = leaves[i].commitment;
    let j = choose|j: int| 0 <= j < leaves.len() && #[trigger] leaves[j].commitment == c;
    if i < j {
        assert(leaves[i].commitment != leaves[j].commitment);
    }
    if j < i {
        assert(leaves[j].commitment != leaves[i].commitment);
    }
}

/// How far a walk from `from` can still go: one more than the view of the leaf.
pub open spec fn walk_measure<T>(leaves: Seq<LeafRecord<T>>, from: Commitment) -> nat {
    if has_leaf(leaves, from) {
        leaf_of(leaves, from).view_number as nat + 1
    } else {
        0
    }
}

/// Whether a walk that stands at `leaf` can step to the parent: the parent
/// is known and of a lower view, and the certificate that the leaf carries
/// is for the parent and of the parent's view.
pub open spec fn steps_down<T>(leaves: Seq<LeafRecord<T>>, leaf: LeafRecord<T>) -> bool {
    &&& has_leaf(leaves, leaf.parent_commitment)
    &&& leaf_of(leaves, leaf.parent_commitment).view_number < leaf.view_number
    &&& leaf.justify_qc.commitment == leaf.parent_commitment
    &&& leaf.justify_qc.view_number == leaf_of(leaves, leaf.parent_commitment).view_number
}

/// Where a walk from `from` along the parent links ends: at the first
/// commitment whose leaf is unknown, is of a view no higher than `floor`, or
/// cannot be stepped to from its child.
pub open spec fn lineage_end<T>(leaves: Seq<LeafRecord<T>>, from: Commitment, floor: ViewNumber) -> Commitment
    decreases walk_measure(leaves, from),
{
    if !has_leaf(leaves, from) {
        from
    } else {
        let leaf = leaf_of(leaves, from);
        if leaf.view_number <= floor {
            from
        } else if steps_down(leaves, leaf) {
            lineage_end(leaves, leaf.parent_commitment, floor)
        } else {
            leaf.parent_commitment
        }
    }
}

/// The leaves that a walk from `from` along the parent links passes before
/// it ends, newest first: each is known and of a view higher than `floor`.
pub open spec fn lineage<T>(leaves: Seq<LeafRecord<T>>, from: Commitment, floor: ViewNumber) -> Seq<
    LeafRecord<T>,
>
    decreases walk_measure(leaves, from),
{
    if !has_leaf(leaves, from) {
        Seq::empty()
    } else {
        let leaf = leaf_of(leaves, from);
        if leaf.view_number <= floor {
            Seq::empty()
        } else if steps_down(leaves, leaf) {
            seq![leaf] + lineage(leaves, leaf.parent_commitment, floor)
        } else {
            seq![leaf]
        }
    }
}

/// Whether `parent` is the known parent of `child`, of a lower view, and
/// certified by the certificate that the child carries.
pub open spec fn walks_down<T>(leaves: Seq<LeafRecord<T>>, child: LeafRecord<T>, parent: LeafRecord<T>) -> bool {
    &&& has_leaf(leaves, child.parent_commitment)
    &&& parent == leaf_of(leaves, child.parent_commitment)
    &&& parent.view_number < child.view_number
    &&& child.justify_qc.commitment == parent.commitment
    &&& child.justify_qc.view_number == parent.view_number
}

/// What holds of the leaves that a walk passes: there is one at least where
/// the walk starts at a known leaf above the floor, each is known and of a
/// view above the floor, and each but the first is the parent of the one
/// before it, and of a lower view.
pub proof fn lemma_lineage<T>(leaves: Seq<LeafRecord<T>>, from: Commitment, floor: ViewNumber)
    ensures
        has_leaf(leaves, from) && leaf_of(leaves, from).view_number > floor ==> lineage(leaves, from, floor).len()
            >= 1 && lineage(leaves, from, floor)[0] == leaf_of(leaves, from),
        forall|i: int|
            0 <= i < lineage(leaves, from, floor).len() ==> {
                let leaf = #[trigger] lineage(leaves, from, floor)[i];
                &&& has_leaf(leaves, leaf.commitment)
                &&& leaf_of(leaves, leaf.commitment) == leaf
                &&& leaf.view_number > floor
            },
        forall|i: int|
            1 <= i < lineage(leaves, from, floor).len() ==> walks_down(
                leaves,
                lineage(leaves, from, floor)[i - 1],
                #[trigger] lineage(leaves, from, floor)[i],
            ),
    decreases walk_measure(leaves, from),
{
    reveal_with_fuel(lineage, 2);
    let all = lineage(leaves, from, floor);
    if has_leaf(leaves, from) {
        let leaf = leaf_of(leaves, from);
        let at = choose|i: int| 0 <= i < leaves.len() && #[trigger] leaves[i].commitment == from;
        assert(leaf.commitment == from);
        if leaf.view_number > floor && steps_down(leaves, leaf) {
            let rest = lineage(leaves, leaf.parent_commitment, floor);
            lemma_lineage(leaves, leaf.parent_commitment, floor);
            assert(all =~= seq![leaf] + rest);
            assert forall|i: int| 0 <= i < all.len() implies {
                let l = #[trigger] all[i];
                &&& has_leaf(leaves, l.commitment)
                &&& leaf_of(leaves, l.commitment) == l
                &&& l.view_number > floor
            } by {
                if i > 0 {
                    assert(all[i] == rest[i - 1]);
                }
            }
            assert forall|i: int| 1 <= i < all.len() implies walks_down(leaves, all[i - 1], #[trigger] all[i]) by {
                assert(all[i] == rest[i - 1]);
                if i > 1 {
                    assert(all[i - 1] == rest[i - 2]);
                } else {
                    assert(rest[0] == leaf_of(leaves, leaf.parent_commitment));
                }
            }
        }
    }
}

/// One more leaf, with a commitment that is new, changes nothing for the
/// leaves that were there.
pub proof fn lemma_push_keeps_leaves<T>(leaves: Seq<LeafRecord<T>>, leaf: LeafRecord<T>)
    requires
        commitments_distinct(leaves),
        !has_leaf(leaves, leaf.commitment),
    ensures
        commitments_distinct(leaves.push(leaf)),
        has_leaf(leaves.push(leaf), leaf.commitment),
        leaf_of(leaves.push(leaf), leaf.commitment) == leaf,
        forall|c: Commitment| has_leaf(leaves.push(leaf), c) <==> has_leaf(leaves, c) || c == leaf.commitment,
        forall|c: Commitment| has_leaf(leaves, c) ==> leaf_of(leaves.push(leaf), c) == leaf_of(leaves, c),
{
    let grown = leaves.push(leaf);
    assert forall|i: int, j: int| 0 <= i < j < grown.len() implies #[trigger] grown[i].commitment
        != #[trigger] grown[j].commitment by {
        if j == leaves.len() {
            assert(leaves[i].commitment == grown[i].commitment);
        } else {
            assert(leaves[i].commitment != leaves[j].commitment);
        }
    }
    assert(grown[leaves.len() as int].commitment == leaf.commitment);
    lemma_leaf_of(grown, leaves.len() as int);
    assert forall|c: Commitment| has_leaf(grown, c) <==> has_leaf(leaves, c) || c == leaf.commitment by {
        if has_leaf(grown, c) {
            let i = choose|i: int| 0 <= i < grown.len() && #[trigger] grown[i].commitment == c;
            if i < leaves.len() {
                assert(leaves[i].commitment == c);
            }
        }
        if has_leaf(leaves, c) {
            let i = choose|i: int| 0 <= i < leaves.len() && #[trigger] leaves[i].commitment == c;
            assert(grown[i].commitment == c);
        }
    }
    assert forall|c: Commitment| has_leaf(leaves, c) implies leaf_of(grown, c) == leaf_of(leaves, c) by {
        let i = choose|i: int| 0 <= i < leaves.len() && #[trigger] leaves[i].commitment == c;
        assert(grown[i] == leaves[i]);
        lemma_leaf_of(grown, i);
        lemma_leaf_of(leaves, i);
    }
}

/// The leaves of a view no lower than `floor`, in the order they had.
pub open spec fn leaves_from<T>(leaves: Seq<LeafRecord<T>>, floor: ViewNumber) -> Seq<LeafRecord<T>> {
    leaves.filter(|leaf: LeafRecord<T>| leaf.view_number >= floor)
}

/// What the walks read of a leaf.
#[derive(Clone, Copy, Debug)]
pub struct Link {
    /// The commitment of the leaf.
    pub commitment: Commitment,
    /// The view of the leaf.
    pub view_number: ViewNumber,
    /// The commitment of the parent.
    pub parent_commitment: Commitment,
    /// The commitment that the certificate of the leaf is for.
    pub certified_commitment: Commitment,
    /// The view that the certificate of the leaf is of.
    pub certified_view: ViewNumber,
    /// The block of the leaf.
    pub block_commitment: Commitment,
    /// The size of the block.
    pub block_size: u64,
}

/// What the walks read of a leaf.
pub open spec fn link_of<T>(leaf: LeafRecord<T>) -> Link {
    Link {
        commitment: leaf.commitment,
        view_number: leaf.view_number,
        parent_commitment: leaf.parent_commitment,
        certified_commitment: leaf.justify_qc.commitment,
        certified_view: leaf.justify_qc.view_number,
        block_commitment: leaf.block_commitment,
        block_size: leaf.block_size,
    }
}

/// The leaves that a node knows. No two have the same commitment.
#[derive(Debug)]
pub struct Chain<T> {
    leaves: Vec<Leaf<T>>,
}

impl<T> View for Chain<T> {
    type V = Seq<LeafRecord<T>>;

    closed spec fn view(&self) -> Seq<LeafRecord<T>> {
        Seq::new(self.leaves@.len(), |i: int| self.leaves@[i]@)
    }
}

impl<T> Chain<T> {
    #[verifier::type_invariant]
    spec fn distinct(self) -> bool {
        commitments_distinct(self@)
    }
}

impl<T: VoteToken> Chain<T> {
    /// A chain without leaves.
    pub fn new() -> (chain: Self)
        ensures
            chain@ == Seq::<LeafRecord<T>>::empty(),
    {
        let chain = Chain { leaves: Vec::new() };
        assert(chain@ =~= Seq::<LeafRecord<T>>::empty());
        chain
    }

    /// The number of leaves. No two have the same commitment.
    pub fn len(&self) -> (n: usize)
        ensures
            n == self@.len(),
            commitments_distinct(self@),
    {
        proof {
            use_type_invariant(self);
        }
        self.leaves.len()
    }

    /// The leaf with a commitment, if it is known.
    pub fn get(&self, commitment: &Commitment) -> (found: Option<&Leaf<T>>)
        ensures
            found is Some == has_leaf(self@, *commitment),
            found matches Some(leaf) ==> leaf@ == leaf_of(self@, *commitment),
    {
        proof {
            use_type_invariant(self);
        }
        let mut i: usize = 0;
        while i < self.leaves.len()
            invariant
                i <= self.leaves@.len(),
                commitments_distinct(self@),
                forall|j: int| 0 <= j < i ==> (#[trigger] self@[j]).commitment != *commitment,
            decreases self.leaves@.len() - i,
        {
            if self.leaves[i].commitment.same_as(commitment) {
                proof {
                    lemma_leaf_of(self@, i as int);
                }
                return Some(&self.leaves[i]);
            }
            i += 1;
        }
        None
    }

    /// What the walks read of the leaf with a commitment, if it is known.
    pub fn link(&self, commitment: &Commitment) -> (found: Option<Link>)
        ensures
            found is Some == has_leaf(self@, *commitment),
            found matches Some(link) ==> link == link_of(leaf_of(self@, *commitment)),
    {
        match self.get(commitment) {
            Some(leaf) => Some(
                Link {
                    commitment: leaf.commitment,
                    view_number: leaf.view_number,
                    parent_commitment: leaf.parent_commitment,
                    certified_commitment: leaf.justify_qc.leaf_commitment,
                    certified_view: leaf.justify_qc.view_number,
                    block_commitment: leaf.block_commitment,
                    block_size: leaf.block_size,
                },
            ),
            None => None,
        }
    }

    /// The leaf at a place in the order of arrival.
    pub fn at(&self, index: usize) -> (leaf: &Leaf<T>)
        requires
            index < self@.len(),
        ensures
            leaf@ == self@[index as int],
    {
        &self.leaves[index]
    }

    /// Takes the leaf at a place out.
    pub fn take(&mut self, index: usize) -> (leaf: Leaf<T>)
        requires
            index < old(self)@.len(),
        ensures
            leaf@ == old(self)@[index as int],
            final(self)@ == old(self)@.remove(index as int),
    {
        proof {
            use_type_invariant(&*self);
        }
        let ghost before = self@;
        let mut leaves: Vec<Leaf<T>> = Vec::new();
        assert(Seq::new(leaves@.len(), |i: int| leaves@[i]@) =~= Seq::<LeafRecord<T>>::empty());
        core::mem::swap(&mut leaves, &mut self.leaves);
        let leaf = leaves.remove(index);
        proof {
            let after = Seq::new(leaves@.len(), |i: int| leaves@[i]@);
            assert(after =~= before.remove(index as int));
            assert forall|i: int, j: int| 0 <= i < j < after.len() implies #[trigger] after[i].commitment
                != #[trigger] after[j].commitment by {
                let a = if i < index {
                    i
                } else {
                    i + 1
                };
                let b = if j < index {
                    j
                } else {
                    j + 1
                };
                assert(before[a].commitment != before[b].commitment);
            }
        }
        core::mem::swap(&mut leaves, &mut self.leaves);
        leaf
    }

    /// Takes a leaf in, unless a leaf with its commitment is known already.
    pub fn insert(&mut self, leaf: Leaf<T>) -> (inserted: bool)
        ensures
            inserted == !has_leaf(old(self)@, leaf.commitment),
            inserted ==> final(self)@ == old(self)@.push(leaf@),
            !inserted ==> final(self)@ == old(self)@,
    {
        if self.get(&leaf.commitment).is_some() {
            return false;
        }
        proof {
            use_type_invariant(&*self);
        }
        let ghost before = self@;
        let mut leaves: Vec<Leaf<T>> = Vec::new();
        assert(Seq::new(leaves@.len(), |i: int| leaves@[i]@) =~= Seq::<LeafRecord<T>>::empty());
        core::mem::swap(&mut leaves, &mut self.leaves);
        leaves.push(leaf);
        assert(Seq::new(leaves@.len(), |i: int| leaves@[i]@) =~= before.push(leaf@));
        core::mem::swap(&mut leaves, &mut self.leaves);
        true
    }

    /// Where a walk from `from` along the parent links ends. See [`lineage_end`].
    pub fn lineage_end(&self, from: Commitment, floor: ViewNumber) -> (end: Commitment)
        ensures
            end == lineage_end(self@, from, floor),
    {
        let mut current = from;
        loop
            invariant
                lineage_end(self@, current, floor) == lineage_end(self@, from, floor),
            decreases walk_measure(self@, current),
        {
            match self.get(&current) {
                None => {
                    return current;
                },
                Some(leaf) => {
                    if leaf.view_number <= floor {
                        return current;
                    }
                    let parent = leaf.parent_commitment;
                    match self.get(&parent) {
                        Some(above) => {
                            if above.view_number < leaf.view_number && leaf.justify_qc.leaf_commitment.same_as(
                                &parent,
                            ) && leaf.justify_qc.view_number == above.view_number {
                                current = parent;
                            } else {
                                return parent;
                            }
                        },
                        None => {
                            return parent;
                        },
                    }
                },
            }
        }
    }

    /// The leaves that a walk from `from` along the parent links passes,
    /// newest first. See [`lineage`].
    pub fn lineage(&self, from: Commitment, floor: ViewNumber) -> (path: Vec<Leaf<T>>)
        ensures
            path@.len() == lineage(self@, from, floor).len(),
            forall|i: int| 0 <= i < path@.len() ==> (#[trigger] path@[i])@ == lineage(self@, from, floor)[i],
    {
        let mut path: Vec<Leaf<T>> = Vec::new();
        let mut current = from;
        loop
            invariant
                lineage(self@, from, floor) == Seq::new(path@.len(), |i: int| path@[i]@) + lineage(
                    self@,
                    current,
                    floor,
                ),
            decreases walk_measure(self@, current),
        {
            let ghost so_far = Seq::new(path@.len(), |i: int| path@[i]@);
            match self.get(&current) {
                None => {
                    assert(so_far + Seq::<LeafRecord<T>>::empty() =~= so_far);
                    return path;
                },
                Some(leaf) => {
                    if leaf.view_number <= floor {
                        assert(so_far + Seq::<LeafRecord<T>>::empty() =~= so_far);
                        return path;
                    }
                    let parent = leaf.parent_commitment;
                    path.push(leaf.clone());
                    let ghost longer = Seq::new(path@.len(), |i: int| path@[i]@);
                    assert(longer =~= so_far + seq![leaf@]);
                    let down = match self.get(&parent) {
                        Some(above) => above.view_number < leaf.view_number
                            && leaf.justify_qc.leaf_commitment.same_as(&parent) && leaf.justify_qc.view_number
                            == above.view_number,
                        None => false,
                    };
                    if down {
                        assert(so_far + (seq![leaf@] + lineage(self@, parent, floor)) =~= longer + lineage(
                            self@,
                            parent,
                            floor,
                        ));
                        current = parent;
                    } else {
                        return path;
                    }
                },
            }
        }
    }

    /// Forgets the leaves of a view lower than `floor`.
    pub fn prune(&mut self, floor: ViewNumber)
        ensures
            final(self)@ == leaves_from(old(self)@, floor),
    {
        proof {
            use_type_invariant(&*self);
        }
        let ghost before = self@;
        let mut leaves: Vec<Leaf<T>> = Vec::new();
        assert(Seq::new(leaves@.len(), |i: int| leaves@[i]@) =~= Seq::<LeafRecord<T>>::empty());
        core::mem::swap(&mut leaves, &mut self.leaves);
        let mut kept: Vec<Leaf<T>> = Vec::new();
        let n = leaves.len();
        let mut i: usize = 0;
        // Walk from the back so that each leaf can be moved out, then restore the order.
        let mut reversed: Vec<Leaf<T>> = Vec::new();
        while leaves.len() > 0
            invariant
                leaves@.len() <= n,
                reversed@.len() == n - leaves@.len(),
                forall|j: int| 0 <= j < leaves@.len() ==> (#[trigger] leaves@[j])@ == before[j],
                forall|j: int| 0 <= j < reversed@.len() ==> (#[trigger] reversed@[j])@ == before[n - 1 - j],
                n == before.len(),
            decreases leaves@.len(),
        {
            let leaf = leaves.pop().unwrap();
            reversed.push(leaf);
        }
        while reversed.len() > 0
            invariant
                reversed@.len() <= n,
                n == before.len(),
                i == n - reversed@.len(),
                forall|j: int| 0 <= j < reversed@.len() ==> (#[trigger] reversed@[j])@ == before[n - 1 - j],
                Seq::new(kept@.len(), |j: int| kept@[j]@) == leaves_from(before.take(i as int), floor),
            decreases reversed@.len(),
        {
            let leaf = reversed.pop().unwrap();
            let ghost so_far = Seq::new(kept@.len(), |j: int| kept@[j]@);
            proof {
                assert(leaf@ == before[i as int]);
                assert(before.take(i + 1).drop_last() =~= before.take(i as int));
                assert(before.take(i + 1).last() == before[i as int]);
                reveal(Seq::filter);
            }
            if leaf.view_number >= floor {
                kept.push(leaf);
                assert(Seq::new(kept@.len(), |j: int| kept@[j]@) =~= so_far.push(before[i as int]));
            }
            i += 1;
        }
        proof {
            assert(before.take(n as int) =~= before);
            lemma_filter_keeps_distinct(before, floor);
        }
        core::mem::swap(&mut kept, &mut self.leaves);
    }
}

/// Leaving leaves out does not bring two with the same commitment together.
pub proof fn lemma_filter_keeps_distinct<T>(leaves: Seq<LeafRecord<T>>, floor: ViewNumber)
    requires
        commitments_distinct(leaves),
    ensures
        commitments_distinct(leaves_from(leaves, floor)),
        forall|c: Commitment|
            has_leaf(leaves_from(leaves, floor), c) <==> has_leaf(leaves, c) && leaf_of(leaves, c).view_number
                >= floor,
        forall|c: Commitment|
            has_leaf(leaves_from(leaves, floor), c) ==> leaf_of(leaves_from(leaves, floor), c) == leaf_of(
                leaves,
                c,
            ),
    decreases leaves.len(),
{
    let keep = |leaf: LeafRecord<T>| leaf.view_number >= floor;
    reveal(Seq::filter);
    if leaves.len() > 0 {
        let rest = leaves.drop_last();
        let last = leaves.last();
        lemma_filter_keeps_distinct(rest, floor);
        let kept = leaves_from(leaves, floor);
        let kept_rest = leaves_from(rest, floor);
        assert(kept == if keep(last) {
            kept_rest.push(last)
        } else {
            kept_rest
        });
        assert forall|c: Commitment| has_leaf(rest, c) implies has_leaf(leaves, c) && leaf_of(leaves, c)
            == leaf_of(rest, c) by {
            let i = choose|i: int| 0 <= i < rest.len() && #[trigger] rest[i].commitment == c;
            assert(leaves[i].commitment == c);
            lemma_leaf_of(leaves, i);
            lemma_leaf_of(rest, i);
        }
        lemma_leaf_of(leaves, leaves.len() - 1);
        assert(!has_leaf(rest, last.commitment)) by {
            if has_leaf(rest, last.commitment) {
                let i = choose|i: int| 0 <= i < rest.len() && #[trigger] rest[i].commitment == last.commitment;
                assert(leaves[i].commitment == leaves[leaves.len() - 1].commitment);
            }
        }
        assert forall|c: Commitment| has_leaf(leaves, c) implies has_leaf(rest, c) || c
            == last.commitment by {
            let i = choose|i: int| 0 <= i < leaves.len() && #[trigger] leaves[i].commitment == c;
            if i < rest.len() {
                assert(rest[i].commitment == c);
            }
        }
        assert(commitments_distinct(kept)) by {
            assert forall|i: int, j: int| 0 <= i < j < kept.len() implies #[trigger] kept[i].commitment
                != #[trigger] kept[j].commitment by {
                if j == kept_rest.len() {
                    assert(kept_rest[i].commitment == kept[i].commitment);
                    assert(has_leaf(kept_rest, kept[i].commitment));
                } else {
                    assert(kept_rest[i].commitment != kept_rest[j].commitment);
                }
            }
        }
        assert forall|c: Commitment| has_leaf(kept, c) <==> has_leaf(leaves, c) && leaf_of(
            leaves,
            c,
        ).view_number >= floor by {
            if has_leaf(kept, c) {
                let i = choose|i: int| 0 <= i < kept.len() && #[trigger] kept[i].commitment == c;
                if i < kept_rest.len() {
                    assert(kept_rest[i].commitment == c);
                    assert(has_leaf(kept_rest, c));
                }
            }
            if has_leaf(leaves, c) && leaf_of(leaves, c).view_number >= floor {
                if c == last.commitment {
                    assert(kept[kept.len() - 1].commitment == c);
                } else {
                    assert(has_leaf(kept_rest, c));
                    let i = choose|i: int| 0 <= i < kept_rest.len() && #[trigger] kept_rest[i].commitment == c;
                    assert(kept[i].commitment == c);
                }
            }
        }
        assert forall|c: Commitment| has_leaf(kept, c) implies leaf_of(kept, c) == leaf_of(leaves, c) by {
            let i = choose|i: int| 0 <= i < kept.len() && #[trigger] kept[i].commitment == c;
            lemma_leaf_of(kept, i);
            if i < kept_rest.len() {
                assert(kept_rest[i].commitment == c);
                lemma_leaf_of(kept_rest, i);
            }
        }
    }
}

} // verus!
