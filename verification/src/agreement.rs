//! Why the nodes agree on what is decided: a leaf that stands under three
//! certified leaves of views in a row is an ancestor of every leaf that is
//! certified in its view or later.

use vstd::prelude::*;
use crate::certificate::CertificateRecord;
use crate::chain::{commitments_distinct, has_leaf, leaf_of, lemma_leaf_of, lemma_push_keeps_leaves};
use crate::consensus::{ActionRecord, ConsensusModel, EventRecord};
use crate::data::{Commitment, LeafRecord, ViewNumber, VoteData, GENESIS_VIEW};
use crate::election::{Membership, VoteToken};
use crate::exchange::{certificate_accepted, lemma_accepted_certificate_has_quorum, quorum_of_votes};
use crate::safety::{
    certifies, decide_is_certified, chain_is_linked, is_among, lemma_adoption_is_checked, lemma_adoption_keeps_chain_linked,
    lemma_adoption_keeps_order, lemma_adoption_keeps_views, lemma_certificate_keeps_views,
    lemma_chain_stays_linked, lemma_decides_are_certified, lemma_first_adoptable,
    lemma_initial_state_is_checked, lemma_initial_state_is_ordered, lemma_kept_leaves_were_there,
    lemma_relock, lemma_state_stays_ordered, lemma_views_never_fall, lemma_votes_within_stake,
    no_view_fell, state_is_checked, state_is_ordered, waiting_leaves_are_sound, weights_within_stake,
    Input,
};
use crate::signature_key::SignatureKey;
use crate::stake::{lemma_quorums_intersect, stake_in, threshold_for, total_stake, StakeRecord};

verus! {

/// Whether each leaf that a node knows or keeps waiting is the leaf that
/// its commitment names.
pub open spec fn leaves_are_named<T>(named: spec_fn(Commitment) -> LeafRecord<T>, state: ConsensusModel<T>) -> bool {
    &&& forall|i: int| 0 <= i < state.leaves.len() ==> named((#[trigger] state.leaves[i]).commitment) == state.leaves[i]
    &&& forall|i: int|
        0 <= i < state.pending.len() ==> named((#[trigger] state.pending[i]).commitment) == state.pending[i]
}

/// Whether a proposal that comes in is of the leaf that its commitment names.
pub open spec fn input_is_named<T>(named: spec_fn(Commitment) -> LeafRecord<T>, input: Input<T>) -> bool {
    input matches Input::Proposal { leaf, .. } ==> named(leaf.commitment) == leaf
}

/// Whether the highest certificate that a node knows is accepted for the
/// leaf that it is for.
pub open spec fn highest_is_accepted<M: Membership>(
    membership: &M,
    state: ConsensusModel<M::VoteTokenType>,
) -> bool {
    certificate_accepted(membership, state.highest_qc, VoteData::Yes(state.highest_qc.commitment))
}

/// Whether a state is sound: the views and leaves stand in order, the chain
/// is linked, what the node knows was checked, the highest certificate is
/// accepted, and each leaf is the leaf that its commitment names.
pub open spec fn state_is_sound<M: Membership>(
    membership: &M,
    named: spec_fn(Commitment) -> LeafRecord<M::VoteTokenType>,
    state: ConsensusModel<M::VoteTokenType>,
) -> bool {
    &&& state_is_ordered(state)
    &&& chain_is_linked(state)
    &&& waiting_leaves_are_sound(state)
    &&& state_is_checked(membership, state)
    &&& highest_is_accepted(membership, state)
    &&& highest_is_dated(named, state)
    &&& leaves_are_named(named, state)
}

/// Whether the highest certificate that a node knows, where it is of the
/// first view of all, is for a leaf of that view: it is then the
/// certificate that the node started with.
pub open spec fn highest_is_dated<T>(named: spec_fn(Commitment) -> LeafRecord<T>, state: ConsensusModel<T>) -> bool {
    state.highest_qc.view_number == GENESIS_VIEW ==> named(state.highest_qc.commitment).view_number
        == GENESIS_VIEW
}

/// Whatever happens to a node, the highest certificate that it knows stays
/// dated: a certificate that takes the place of another is of a higher view.
pub proof fn lemma_highest_stays_dated<T: VoteToken, M: Membership<VoteTokenType = T>>(
    named: spec_fn(Commitment) -> LeafRecord<T>,
    state: ConsensusModel<T>,
    membership: &M,
    own_key: M::SignatureKey,
    input: Input<T>,
)
    requires
        highest_is_dated(named, state),
    ensures
        highest_is_dated(named, state.next(membership, own_key, input).state),
{
    match input {
        Input::Proposal { leaf, justify_qc_commitment } => {
            let grown = ConsensusModel { leaves: state.leaves.push(leaf), ..state };
            lemma_adoption_keeps_views(grown, leaf.justify_qc);
            let settled = grown.adopted(leaf.justify_qc);
            lemma_relock(settled.state, leaf.justify_qc.commitment);
        },
        _ => {},
    }
}

/// The highest certificate among one that is accepted and those that the
/// waiting leaves carry is accepted.
pub proof fn lemma_adoption_best_is_accepted<M: Membership>(
    membership: &M,
    state: ConsensusModel<M::VoteTokenType>,
    best: CertificateRecord<M::VoteTokenType>,
)
    requires
        state_is_checked(membership, state),
        certificate_accepted(membership, best, VoteData::Yes(best.commitment)),
    ensures
        certificate_accepted(
            membership,
            state.adopted(best).best,
            VoteData::Yes(state.adopted(best).best.commitment),
        ),
        state.adopted(best).state.highest_qc == state.highest_qc,
    decreases state.pending.len(),
{
    let at = state.first_adoptable(0);
    if 0 <= at < state.pending.len() {
        lemma_first_adoptable(state, 0);
        let leaf = state.pending[at];
        let next = ConsensusModel {
            leaves: state.leaves.push(leaf),
            pending: state.pending.remove(at),
            ..state
        };
        assert(crate::safety::carries_certificate(membership, state.pending[at]));
        lemma_push_keeps_leaves(state.leaves, leaf);
        assert forall|i: int|
            0 <= i < next.leaves.len() && (#[trigger] next.leaves[i]).view_number
                > next.anchor_view implies crate::safety::carries_certificate(membership, next.leaves[i]) by {
            if i < state.leaves.len() {
                assert(next.leaves[i] == state.leaves[i]);
            }
        }
        assert forall|i: int| 0 <= i < next.pending.len() implies crate::safety::carries_certificate(
            membership,
            #[trigger] next.pending[i],
        ) by {
            if i < at {
                assert(next.pending[i] == state.pending[i]);
            } else {
                assert(next.pending[i] == state.pending[i + 1]);
            }
        }
        lemma_adoption_best_is_accepted(
            membership,
            next,
            if leaf.justify_qc.view_number > best.view_number {
                leaf.justify_qc
            } else {
                best
            },
        );
    }
}

/// Learning of an accepted certificate keeps the highest certificate accepted.
pub proof fn lemma_certificate_keeps_highest_accepted<M: Membership>(
    membership: &M,
    state: ConsensusModel<M::VoteTokenType>,
    qc: CertificateRecord<M::VoteTokenType>,
)
    requires
        highest_is_accepted(membership, state),
        certificate_accepted(membership, qc, VoteData::Yes(qc.commitment)),
    ensures
        highest_is_accepted(membership, state.with_certificate(qc).state),
{
}

/// Whatever happens to a node, the highest certificate that it knows stays
/// accepted.
#[verifier::rlimit(40)]
pub proof fn lemma_highest_stays_accepted<M: Membership>(
    membership: &M,
    own_key: M::SignatureKey,
    state: ConsensusModel<M::VoteTokenType>,
    input: Input<M::VoteTokenType>,
)
    requires
        state_is_checked(membership, state),
        highest_is_accepted(membership, state),
    ensures
        highest_is_accepted(membership, state.next(membership, own_key, input).state),
{
    match input {
        Input::Proposal { leaf, justify_qc_commitment } => {
            if !state.halted && state.admits(membership, leaf) && has_leaf(
                state.leaves,
                leaf.parent_commitment,
            ) && state.links(leaf) {
                let grown = ConsensusModel { leaves: state.leaves.push(leaf), ..state };
                lemma_push_keeps_leaves(state.leaves, leaf);
                assert(state_is_checked(membership, grown)) by {
                    assert forall|i: int|
                        0 <= i < grown.leaves.len() && (#[trigger] grown.leaves[i]).view_number
                            > grown.anchor_view implies crate::safety::carries_certificate(
                        membership,
                        grown.leaves[i],
                    ) by {
                        if i < state.leaves.len() {
                            assert(grown.leaves[i] == state.leaves[i]);
                        }
                    }
                }
                lemma_adoption_best_is_accepted(membership, grown, leaf.justify_qc);
                let settled = grown.adopted(leaf.justify_qc);
                let locked = settled.state.relocked(leaf.justify_qc.commitment);
                lemma_relock(settled.state, leaf.justify_qc.commitment);
                lemma_certificate_keeps_highest_accepted(membership, locked, settled.best);
            }
        },
        Input::Vote { vote } => {
            if state.gathers(membership, own_key, vote) {
                let at = crate::consensus::accumulator_index(state.accumulators, vote.view_number, vote.data, 0);
                crate::safety::lemma_accumulator_index(state.accumulators, vote.view_number, vote.data, 0);
                let accumulator = if at < state.accumulators.len() {
                    state.accumulators[at]
                } else {
                    crate::vote::AccumulatorState {
                        data: vote.data,
                        view_number: vote.view_number,
                        threshold: membership.success_threshold(),
                        records: Seq::empty(),
                    }
                };
                crate::exchange::lemma_accumulated_votes_are_valid(
                    membership,
                    vote.key,
                    vote.signature,
                    vote.data,
                    vote.token,
                    vote.view_number,
                    accumulator,
                );
                assert forall|rest: ConsensusModel<M::VoteTokenType>, qc: CertificateRecord<M::VoteTokenType>|
                    highest_is_accepted(membership, rest) && certificate_accepted(
                        membership,
                        qc,
                        VoteData::Yes(qc.commitment),
                    ) implies highest_is_accepted(membership, #[trigger] rest.with_certificate(qc).state) by {
                    lemma_certificate_keeps_highest_accepted(membership, rest, qc);
                }
            }
        },
        _ => {},
    }
}


/// Letting waiting leaves join the chain keeps each leaf the one that its
/// commitment names.
pub proof fn lemma_adoption_keeps_names<T: VoteToken>(
    named: spec_fn(Commitment) -> LeafRecord<T>,
    state: ConsensusModel<T>,
    best: CertificateRecord<T>,
)
    requires
        leaves_are_named(named, state),
    ensures
        leaves_are_named(named, state.adopted(best).state),
    decreases state.pending.len(),
{
    let at = state.first_adoptable(0);
    if 0 <= at < state.pending.len() {
        let leaf = state.pending[at];
        let next = ConsensusModel {
            leaves: state.leaves.push(leaf),
            pending: state.pending.remove(at),
            ..state
        };
        assert forall|i: int| 0 <= i < next.leaves.len() implies named((#[trigger] next.leaves[i]).commitment)
            == next.leaves[i] by {
            if i < state.leaves.len() {
                assert(next.leaves[i] == state.leaves[i]);
            }
        }
        assert forall|i: int| 0 <= i < next.pending.len() implies named(
            (#[trigger] next.pending[i]).commitment,
        ) == next.pending[i] by {
            if i < at {
                assert(next.pending[i] == state.pending[i]);
            } else {
                assert(next.pending[i] == state.pending[i + 1]);
            }
        }
        lemma_adoption_keeps_names(
            named,
            next,
            if leaf.justify_qc.view_number > best.view_number {
                leaf.justify_qc
            } else {
                best
            },
        );
    }
}

/// Learning of a certificate keeps each leaf the one that its commitment names.
pub proof fn lemma_certificate_keeps_names<T: VoteToken>(
    named: spec_fn(Commitment) -> LeafRecord<T>,
    state: ConsensusModel<T>,
    qc: CertificateRecord<T>,
)
    requires
        leaves_are_named(named, state),
    ensures
        leaves_are_named(named, state.with_certificate(qc).state),
{
    let highest = if qc.view_number > state.highest_qc.view_number {
        qc
    } else {
        state.highest_qc
    };
    let raised = (ConsensusModel { highest_qc: highest, ..state }).relocked(highest.commitment);
    let after = raised.committed(highest.commitment).state;
    match raised.decided_by(highest.commitment) {
        Some(decided) => {
            lemma_kept_leaves_were_there(raised.leaves, decided.view_number);
            lemma_kept_leaves_were_there(raised.pending, decided.view_number);
            if after.leaves != raised.leaves || after.pending != raised.pending {
                assert forall|i: int| 0 <= i < after.leaves.len() implies named(
                    (#[trigger] after.leaves[i]).commitment,
                ) == after.leaves[i] by {
                    assert(is_among(raised.leaves, after.leaves[i]));
                    let k = choose|k: int|
                        0 <= k < raised.leaves.len() && #[trigger] raised.leaves[k] == after.leaves[i];
                    assert(named(raised.leaves[k].commitment) == raised.leaves[k]);
                }
                assert forall|i: int| 0 <= i < after.pending.len() implies named(
                    (#[trigger] after.pending[i]).commitment,
                ) == after.pending[i] by {
                    assert(is_among(raised.pending, after.pending[i]));
                    let k = choose|k: int|
                        0 <= k < raised.pending.len() && #[trigger] raised.pending[k] == after.pending[i];
                    assert(named(raised.pending[k].commitment) == raised.pending[k]);
                }
            }
        },
        None => {},
    }
}

/// Whatever happens to a node, each leaf that it knows stays the leaf that
/// its commitment names, where the proposals that come in are so.
#[verifier::rlimit(40)]
pub proof fn lemma_names_stay<T: VoteToken, M: Membership<VoteTokenType = T>>(
    named: spec_fn(Commitment) -> LeafRecord<T>,
    state: ConsensusModel<T>,
    membership: &M,
    own_key: M::SignatureKey,
    input: Input<T>,
)
    requires
        leaves_are_named(named, state),
        input_is_named(named, input),
    ensures
        leaves_are_named(named, state.next(membership, own_key, input).state),
{
    match input {
        Input::Proposal { leaf, justify_qc_commitment } => {
            if !state.halted && state.admits(membership, leaf) {
                if !has_leaf(state.leaves, leaf.parent_commitment) {
                    let after = state.next(membership, own_key, input).state;
                    assert forall|i: int| 0 <= i < after.pending.len() implies named(
                        (#[trigger] after.pending[i]).commitment,
                    ) == after.pending[i] by {
                        if i < state.pending.len() {
                            assert(after.pending[i] == state.pending[i]);
                        }
                    }
                } else if state.links(leaf) {
                    let grown = ConsensusModel { leaves: state.leaves.push(leaf), ..state };
                    assert forall|i: int| 0 <= i < grown.leaves.len() implies named(
                        (#[trigger] grown.leaves[i]).commitment,
                    ) == grown.leaves[i] by {
                        if i < state.leaves.len() {
                            assert(grown.leaves[i] == state.leaves[i]);
                        }
                    }
                    lemma_adoption_keeps_names(named, grown, leaf.justify_qc);
                    let settled = grown.adopted(leaf.justify_qc);
                    let locked = settled.state.relocked(leaf.justify_qc.commitment);
                    lemma_relock(settled.state, leaf.justify_qc.commitment);
                    lemma_certificate_keeps_names(named, locked, settled.best);
                }
            }
        },
        Input::Vote { vote } => {
            if state.gathers(membership, own_key, vote) {
                assert forall|rest: ConsensusModel<T>, qc: CertificateRecord<T>|
                    leaves_are_named(named, rest) implies leaves_are_named(
                    named,
                    #[trigger] rest.with_certificate(qc).state,
                ) by {
                    lemma_certificate_keeps_names(named, rest, qc);
                }
            }
        },
        _ => {},
    }
}

/// Whatever happens to a node, a sound state stays sound, where the
/// proposals that come in are of the leaves that their commitments name.
pub proof fn lemma_state_stays_sound<M: Membership>(
    membership: &M,
    own_key: M::SignatureKey,
    named: spec_fn(Commitment) -> LeafRecord<M::VoteTokenType>,
    state: ConsensusModel<M::VoteTokenType>,
    input: Input<M::VoteTokenType>,
)
    requires
        state_is_sound(membership, named, state),
        input_is_named(named, input),
    ensures
        state_is_sound(membership, named, state.next(membership, own_key, input).state),
{
    lemma_state_stays_ordered(state, membership, own_key, input);
    lemma_chain_stays_linked(state, membership, own_key, input);
    lemma_decides_are_certified(membership, own_key, state, input);
    lemma_highest_stays_accepted(membership, own_key, state, input);
    lemma_highest_stays_dated(named, state, membership, own_key, input);
    lemma_names_stay(named, state, membership, own_key, input);
}

/// Whether a vote that accepts the leaf with this commitment is among `actions`.
pub open spec fn accepts_leaf<T>(actions: Seq<ActionRecord<T>>, commitment: Commitment) -> bool {
    exists|i: int|
        0 <= i < actions.len() && #[trigger] actions[i] is Vote && actions[i]->Vote_data == VoteData::Yes(
            commitment,
        )
}

/// A node accepts a leaf only when a proposal of that leaf comes in, in the
/// view that the node is in and in which it has not voted, and the leaf
/// fits on a known parent with an accepted certificate and is safe to
/// accept. The node then remembers the view as the last it voted in.
#[verifier::rlimit(40)]
pub proof fn lemma_vote_source<T: VoteToken, M: Membership<VoteTokenType = T>>(
    state: ConsensusModel<T>,
    membership: &M,
    own_key: M::SignatureKey,
    input: Input<T>,
    commitment: Commitment,
)
    requires
        accepts_leaf(state.next(membership, own_key, input).actions, commitment),
    ensures
        input matches Input::Proposal { leaf, .. } && {
            &&& leaf.commitment == commitment
            &&& !state.halted
            &&& state.admits(membership, leaf)
            &&& has_leaf(state.leaves, leaf.parent_commitment)
            &&& state.links(leaf)
            &&& leaf.view_number == state.current_view
            &&& leaf.view_number > state.last_voted_view
            &&& state.safe_to_accept(leaf)
            &&& state.next(membership, own_key, input).state.last_voted_view == leaf.view_number
        },
{
    let outcome = state.next(membership, own_key, input);
    let at = choose|i: int|
        0 <= i < outcome.actions.len() && #[trigger] outcome.actions[i] is Vote
            && outcome.actions[i]->Vote_data == VoteData::Yes(commitment);
    match input {
        Input::Proposal { leaf, justify_qc_commitment } => {
            if !state.halted && state.admits(membership, leaf) && has_leaf(
                state.leaves,
                leaf.parent_commitment,
            ) && state.links(leaf) {
                let grown = ConsensusModel { leaves: state.leaves.push(leaf), ..state };
                lemma_adoption_keeps_views(grown, leaf.justify_qc);
                let settled = grown.adopted(leaf.justify_qc);
                let locked = settled.state.relocked(leaf.justify_qc.commitment);
                lemma_relock(settled.state, leaf.justify_qc.commitment);
                lemma_certificate_keeps_views(locked, settled.best);
                let advanced = locked.with_certificate(settled.best);
                if at < advanced.actions.len() {
                    assert(outcome.actions[at] == advanced.actions[at]);
                }
            }
        },
        Input::Vote { vote } => {
            if state.gathers(membership, own_key, vote) {
                assert forall|rest: ConsensusModel<T>, qc: CertificateRecord<T>, i: int|
                    0 <= i < rest.with_certificate(qc).actions.len() implies #[trigger] rest.with_certificate(
                    qc,
                ).actions[i] is Emit by {
                    lemma_certificate_keeps_views(rest, qc);
                }
            }
        },
        _ => {},
    }
}

/// The state of a node after the first `t` of the things that happened to it.
pub open spec fn state_before<M: Membership>(
    membership: &M,
    own_key: M::SignatureKey,
    start: ConsensusModel<M::VoteTokenType>,
    inputs: Seq<Input<M::VoteTokenType>>,
    t: int,
) -> ConsensusModel<M::VoteTokenType> {
    start.run(membership, own_key, inputs.take(t)).state
}

/// Whether a node accepts the leaf with this commitment when the thing at
/// place `t` happens to it.
pub open spec fn accepted_at<M: Membership>(
    membership: &M,
    own_key: M::SignatureKey,
    start: ConsensusModel<M::VoteTokenType>,
    inputs: Seq<Input<M::VoteTokenType>>,
    t: int,
    commitment: Commitment,
) -> bool {
    &&& 0 <= t < inputs.len()
    &&& accepts_leaf(
        state_before(membership, own_key, start, inputs, t).next(membership, own_key, inputs[t]).actions,
        commitment,
    )
}

/// The state after one more thing is what becomes of the state before.
pub proof fn lemma_state_before_step<M: Membership>(
    membership: &M,
    own_key: M::SignatureKey,
    start: ConsensusModel<M::VoteTokenType>,
    inputs: Seq<Input<M::VoteTokenType>>,
    t: int,
)
    requires
        0 <= t < inputs.len(),
    ensures
        state_before(membership, own_key, start, inputs, t + 1) == state_before(
            membership,
            own_key,
            start,
            inputs,
            t,
        ).next(membership, own_key, inputs[t]).state,
        state_before(membership, own_key, start, inputs, 0) == start,
{
    assert(inputs.take(t + 1).drop_last() =~= inputs.take(t));
    assert(inputs.take(t + 1).last() == inputs[t]);
    assert(inputs.take(0).len() == 0);
}

/// Whether each proposal that comes in is of the leaf that its commitment names.
pub open spec fn inputs_are_named<T>(named: spec_fn(Commitment) -> LeafRecord<T>, inputs: Seq<Input<T>>) -> bool {
    forall|i: int| 0 <= i < inputs.len() ==> input_is_named(named, #[trigger] inputs[i])
}

/// A node that starts in a sound state is in a sound state whenever
/// something happens to it.
pub proof fn lemma_run_is_sound<M: Membership>(
    membership: &M,
    own_key: M::SignatureKey,
    named: spec_fn(Commitment) -> LeafRecord<M::VoteTokenType>,
    start: ConsensusModel<M::VoteTokenType>,
    inputs: Seq<Input<M::VoteTokenType>>,
    t: int,
)
    requires
        state_is_sound(membership, named, start),
        inputs_are_named(named, inputs),
        0 <= t <= inputs.len(),
    ensures
        state_is_sound(membership, named, state_before(membership, own_key, start, inputs, t)),
    decreases t,
{
    if t == 0 {
        lemma_state_before_step(membership, own_key, start, inputs.push(inputs[0]), 0);
        assert(inputs.take(0).len() == 0);
    } else {
        lemma_run_is_sound(membership, own_key, named, start, inputs, t - 1);
        lemma_state_before_step(membership, own_key, start, inputs, t - 1);
        lemma_state_stays_sound(
            membership,
            own_key,
            named,
            state_before(membership, own_key, start, inputs, t - 1),
            inputs[t - 1],
        );
    }
}

/// No view that a node keeps falls from an earlier to a later time.
pub proof fn lemma_run_keeps_views<M: Membership>(
    membership: &M,
    own_key: M::SignatureKey,
    start: ConsensusModel<M::VoteTokenType>,
    inputs: Seq<Input<M::VoteTokenType>>,
    earlier: int,
    later: int,
)
    requires
        0 <= earlier <= later <= inputs.len(),
    ensures
        no_view_fell(
            state_before(membership, own_key, start, inputs, earlier),
            state_before(membership, own_key, start, inputs, later),
        ),
    decreases later - earlier,
{
    if earlier < later {
        lemma_run_keeps_views(membership, own_key, start, inputs, earlier, later - 1);
        lemma_state_before_step(membership, own_key, start, inputs, later - 1);
        lemma_views_never_fall(
            state_before(membership, own_key, start, inputs, later - 1),
            membership,
            own_key,
            inputs[later - 1],
        );
    }
}

/// A node accepts leaves in the order of their views, and two leaves of one
/// view that it accepts are one leaf.
pub proof fn lemma_accepts_in_order<M: Membership>(
    membership: &M,
    own_key: M::SignatureKey,
    named: spec_fn(Commitment) -> LeafRecord<M::VoteTokenType>,
    start: ConsensusModel<M::VoteTokenType>,
    inputs: Seq<Input<M::VoteTokenType>>,
    first: int,
    one: Commitment,
    second: int,
    other: Commitment,
)
    requires
        inputs_are_named(named, inputs),
        accepted_at(membership, own_key, start, inputs, first, one),
        accepted_at(membership, own_key, start, inputs, second, other),
        named(one).view_number <= named(other).view_number,
    ensures
        first <= second,
        named(one).view_number == named(other).view_number ==> one == other,
        inputs[first] matches Input::Proposal { leaf, .. } && leaf == named(one),
        inputs[second] matches Input::Proposal { leaf, .. } && leaf == named(other),
{
    let before_first = state_before(membership, own_key, start, inputs, first);
    let before_second = state_before(membership, own_key, start, inputs, second);
    lemma_vote_source(before_first, membership, own_key, inputs[first], one);
    lemma_vote_source(before_second, membership, own_key, inputs[second], other);
    assert(input_is_named(named, inputs[first]));
    assert(input_is_named(named, inputs[second]));
    lemma_state_before_step(membership, own_key, start, inputs, first);
    lemma_state_before_step(membership, own_key, start, inputs, second);
    if second < first {
        lemma_run_keeps_views(membership, own_key, start, inputs, second + 1, first);
    }
    if first < second {
        lemma_run_keeps_views(membership, own_key, start, inputs, first + 1, second);
    }
}

/// A node that accepts a leaf is then locked no lower than the grandparent
/// of the leaf, where leaf, parent and grandparent are of views in a row:
/// the lock is of no lower view than the certificate that the parent
/// carries.
#[verifier::rlimit(40)]
pub proof fn lemma_accepting_locks<M: Membership>(
    membership: &M,
    own_key: M::SignatureKey,
    named: spec_fn(Commitment) -> LeafRecord<M::VoteTokenType>,
    state: ConsensusModel<M::VoteTokenType>,
    input: Input<M::VoteTokenType>,
    commitment: Commitment,
)
    requires
        state_is_sound(membership, named, state),
        input_is_named(named, input),
        accepts_leaf(state.next(membership, own_key, input).actions, commitment),
        named(named(commitment).parent_commitment).view_number + 1 == named(commitment).view_number,
        named(named(commitment).parent_commitment).justify_qc.view_number + 1 == named(
            named(commitment).parent_commitment,
        ).view_number,
    ensures
        state.next(membership, own_key, input).state.locked_view >= named(
            named(commitment).parent_commitment,
        ).justify_qc.view_number,
{
    lemma_vote_source(state, membership, own_key, input, commitment);
    let leaf = named(commitment);
    let middle = named(leaf.parent_commitment);
    let grown = ConsensusModel { leaves: state.leaves.push(leaf), ..state };
    // the parent is known, and is the leaf that its commitment names
    let at = choose|i: int|
        0 <= i < state.leaves.len() && #[trigger] state.leaves[i].commitment == leaf.parent_commitment;
    lemma_leaf_of(state.leaves, at);
    assert(state.leaves[at] == middle);
    lemma_push_keeps_leaves(state.leaves, leaf);
    assert(state_is_ordered(grown));
    assert(chain_is_linked(grown)) by {
        crate::safety::lemma_push_keeps_chain_linked(state, leaf);
    }
    lemma_adoption_keeps_order(grown, leaf.justify_qc);
    lemma_adoption_keeps_chain_linked(grown, leaf.justify_qc);
    lemma_adoption_keeps_views(grown, leaf.justify_qc);
    lemma_adoption_keeps_names(named, grown, leaf.justify_qc);
    lemma_adoption_keeps_leaf(grown, leaf.justify_qc, leaf.parent_commitment);
    let settled = grown.adopted(leaf.justify_qc).state;
    let tip = leaf.justify_qc.commitment;
    assert(tip == leaf.parent_commitment);
    assert(leaf_of(settled.leaves, tip) == middle);
    let locked = settled.relocked(tip);
    lemma_relock(settled, tip);
    if middle.view_number > settled.anchor_view && middle.justify_qc.view_number >= settled.anchor_view {
        let k = choose|k: int| 0 <= k < settled.leaves.len() && #[trigger] settled.leaves[k].commitment == tip;
        lemma_leaf_of(settled.leaves, k);
        assert(crate::safety::hangs_on_parent(settled.leaves, settled.leaves[k]));
        let under = choose|i: int|
            0 <= i < settled.leaves.len() && #[trigger] settled.leaves[i].commitment
                == middle.parent_commitment;
        lemma_leaf_of(settled.leaves, under);
        assert(settled.locked_by(tip) is Some);
        assert(locked.locked_view >= middle.justify_qc.view_number);
    }
    lemma_certificate_keeps_views(locked, grown.adopted(leaf.justify_qc).best);
}

/// A leaf that a node knows stays known, and stays the same leaf, while
/// waiting leaves join the chain.
pub proof fn lemma_adoption_keeps_leaf<T: VoteToken>(
    state: ConsensusModel<T>,
    best: CertificateRecord<T>,
    commitment: Commitment,
)
    requires
        commitments_distinct(state.leaves),
        has_leaf(state.leaves, commitment),
    ensures
        has_leaf(state.adopted(best).state.leaves, commitment),
        leaf_of(state.adopted(best).state.leaves, commitment) == leaf_of(state.leaves, commitment),
    decreases state.pending.len(),
{
    let at = state.first_adoptable(0);
    if 0 <= at < state.pending.len() {
        lemma_first_adoptable(state, 0);
        let leaf = state.pending[at];
        lemma_push_keeps_leaves(state.leaves, leaf);
        lemma_adoption_keeps_leaf(
            ConsensusModel { leaves: state.leaves.push(leaf), pending: state.pending.remove(at), ..state },
            if leaf.justify_qc.view_number > best.view_number {
                leaf.justify_qc
            } else {
                best
            },
            commitment,
        );
    }
}

/// Whether a certificate certifies the leaf with this commitment: it is for
/// the leaf and holds a quorum of votes that accept the leaf.
pub open spec fn certified_by<M: Membership>(
    membership: &M,
    qc: CertificateRecord<M::VoteTokenType>,
    commitment: Commitment,
) -> bool {
    &&& qc.commitment == commitment
    &&& quorum_of_votes(membership, qc.records, VoteData::Yes(commitment), qc.view_number)
}

/// Whether `child` stands on `parent`, one view above it, and carries a
/// certificate of the view of the parent.
pub open spec fn stands_on<T>(named: spec_fn(Commitment) -> LeafRecord<T>, child: Commitment, parent: Commitment) -> bool {
    &&& named(child).parent_commitment == parent
    &&& named(child).justify_qc.view_number == named(parent).view_number
    &&& named(child).view_number == named(parent).view_number + 1
}

/// Three leaves, each standing on the one before, and a certificate for each.
pub ghost struct ThreeChain<T> {
    /// The lowest of the three.
    pub b: Commitment,
    /// The leaf that stands on `b`.
    pub b1: Commitment,
    /// The leaf that stands on `b1`.
    pub b2: Commitment,
    /// A certificate for `b`.
    pub q: CertificateRecord<T>,
    /// A certificate for `b1`.
    pub q1: CertificateRecord<T>,
    /// A certificate for `b2`.
    pub q2: CertificateRecord<T>,
}

/// Whether three leaves decide the lowest of them: each is certified and
/// stands on the one before, one view above it, and the lowest is of a view
/// after the first of all.
pub open spec fn decides<M: Membership>(
    membership: &M,
    named: spec_fn(Commitment) -> LeafRecord<M::VoteTokenType>,
    chain: ThreeChain<M::VoteTokenType>,
) -> bool {
    &&& certified_by(membership, chain.q, chain.b)
    &&& certified_by(membership, chain.q1, chain.b1)
    &&& certified_by(membership, chain.q2, chain.b2)
    &&& stands_on(named, chain.b1, chain.b)
    &&& stands_on(named, chain.b2, chain.b1)
    &&& named(chain.b).view_number >= 1
}

/// Whether the action at place `i` is the decision of leaves of which the
/// newest has this commitment.
pub open spec fn decides_leaf<T>(actions: Seq<ActionRecord<T>>, i: int, commitment: Commitment) -> bool {
    &&& 0 <= i < actions.len()
    &&& actions[i] matches ActionRecord::Emit { event: EventRecord::Decide { leaf_chain, .. } }
    &&& leaf_chain.len() >= 1
    &&& leaf_chain[0].commitment == commitment
}

/// What a node in a sound state decides for the highest certificate that it
/// knows rests on three certified leaves of views in a row.
pub proof fn lemma_commit_rests_on_three_chain<M: Membership>(
    membership: &M,
    named: spec_fn(Commitment) -> LeafRecord<M::VoteTokenType>,
    state: ConsensusModel<M::VoteTokenType>,
) -> (chain: ThreeChain<M::VoteTokenType>)
    requires
        state_is_sound(membership, named, state),
        state.decided_by(state.highest_qc.commitment) is Some,
        state.decided_by(state.highest_qc.commitment).unwrap().view_number > state.anchor_view,
    ensures
        decides(membership, named, chain),
        chain.b == state.decided_by(state.highest_qc.commitment).unwrap().commitment,
{
    let tip = state.highest_qc.commitment;
    let leaf = leaf_of(state.leaves, tip);
    let parent = state.locked_by(tip).unwrap();
    let decided = state.decided_by(tip).unwrap();
    let i = choose|i: int| 0 <= i < state.leaves.len() && #[trigger] state.leaves[i].commitment == tip;
    lemma_leaf_of(state.leaves, i);
    let j = choose|j: int|
        0 <= j < state.leaves.len() && #[trigger] state.leaves[j].commitment == leaf.parent_commitment;
    lemma_leaf_of(state.leaves, j);
    let k = choose|k: int|
        0 <= k < state.leaves.len() && #[trigger] state.leaves[k].commitment == parent.parent_commitment;
    lemma_leaf_of(state.leaves, k);
    assert(named(tip) == leaf);
    assert(named(leaf.parent_commitment) == parent);
    assert(named(parent.parent_commitment) == decided);
    assert(crate::safety::carries_certificate(membership, state.leaves[i]));
    assert(crate::safety::carries_certificate(membership, state.leaves[j]));
    lemma_accepted_certificate_has_quorum(
        membership,
        leaf.justify_qc,
        VoteData::Yes(leaf.parent_commitment),
    );
    lemma_accepted_certificate_has_quorum(
        membership,
        parent.justify_qc,
        VoteData::Yes(parent.parent_commitment),
    );
    lemma_accepted_certificate_has_quorum(membership, state.highest_qc, VoteData::Yes(tip));
    ThreeChain {
        b: decided.commitment,
        b1: parent.commitment,
        b2: tip,
        q: parent.justify_qc,
        q1: leaf.justify_qc,
        q2: state.highest_qc,
    }
}

/// What a node in a sound state decides when it learns of an accepted
/// certificate rests on three certified leaves of views in a row.
#[verifier::rlimit(40)]
pub proof fn lemma_certificate_decision_rests_on_three_chain<M: Membership>(
    membership: &M,
    named: spec_fn(Commitment) -> LeafRecord<M::VoteTokenType>,
    state: ConsensusModel<M::VoteTokenType>,
    qc: CertificateRecord<M::VoteTokenType>,
    i: int,
    commitment: Commitment,
) -> (chain: ThreeChain<M::VoteTokenType>)
    requires
        state_is_sound(membership, named, state),
        certificate_accepted(membership, qc, VoteData::Yes(qc.commitment)),
        decides_leaf(state.with_certificate(qc).actions, i, commitment),
    ensures
        decides(membership, named, chain),
        chain.b == commitment,
{
    let highest = if qc.view_number > state.highest_qc.view_number {
        qc
    } else {
        state.highest_qc
    };
    let lifted = ConsensusModel { highest_qc: highest, ..state };
    let raised = lifted.relocked(highest.commitment);
    lemma_relock(lifted, highest.commitment);
    assert(state_is_sound(membership, named, raised));
    let decided = raised.decided_by(highest.commitment).unwrap();
    crate::chain::lemma_lineage(raised.leaves, decided.commitment, raised.anchor_view);
    let k = choose|k: int|
        0 <= k < raised.leaves.len() && #[trigger] raised.leaves[k].commitment == decided.commitment;
    lemma_decided_is_known(raised, highest.commitment);
    lemma_commit_rests_on_three_chain(membership, named, raised)
}

/// What a certificate decides is a leaf that the node knows.
pub proof fn lemma_decided_is_known<T: VoteToken>(state: ConsensusModel<T>, tip: Commitment)
    requires
        commitments_distinct(state.leaves),
        state.decided_by(tip) is Some,
    ensures
        has_leaf(state.leaves, state.decided_by(tip).unwrap().commitment),
        leaf_of(state.leaves, state.decided_by(tip).unwrap().commitment) == state.decided_by(tip).unwrap(),
{
    let leaf = leaf_of(state.leaves, tip);
    let j = choose|j: int|
        0 <= j < state.leaves.len() && #[trigger] state.leaves[j].commitment == leaf.parent_commitment;
    lemma_leaf_of(state.leaves, j);
    let parent = state.locked_by(tip).unwrap();
    let k = choose|k: int|
        0 <= k < state.leaves.len() && #[trigger] state.leaves[k].commitment == parent.parent_commitment;
    lemma_leaf_of(state.leaves, k);
}

/// Whatever happens to a node in a sound state, what it decides rests on
/// three certified leaves of views in a row.
#[verifier::rlimit(40)]
pub proof fn lemma_decision_rests_on_three_chain<M: Membership>(
    membership: &M,
    own_key: M::SignatureKey,
    named: spec_fn(Commitment) -> LeafRecord<M::VoteTokenType>,
    state: ConsensusModel<M::VoteTokenType>,
    input: Input<M::VoteTokenType>,
    i: int,
    commitment: Commitment,
) -> (chain: ThreeChain<M::VoteTokenType>)
    requires
        state_is_sound(membership, named, state),
        input_is_named(named, input),
        decides_leaf(state.next(membership, own_key, input).actions, i, commitment),
    ensures
        decides(membership, named, chain),
        chain.b == commitment,
{
    let outcome = state.next(membership, own_key, input);
    match input {
        Input::Proposal { leaf, justify_qc_commitment } => {
            let grown = ConsensusModel { leaves: state.leaves.push(leaf), ..state };
            lemma_push_keeps_leaves(state.leaves, leaf);
            crate::safety::lemma_push_keeps_chain_linked(state, leaf);
            assert(state_is_checked(membership, grown)) by {
                assert forall|i: int|
                    0 <= i < grown.leaves.len() && (#[trigger] grown.leaves[i]).view_number
                        > grown.anchor_view implies crate::safety::carries_certificate(
                    membership,
                    grown.leaves[i],
                ) by {
                    if i < state.leaves.len() {
                        assert(grown.leaves[i] == state.leaves[i]);
                    }
                }
            }
            assert(leaves_are_named(named, grown)) by {
                assert forall|i: int| 0 <= i < grown.leaves.len() implies named(
                    (#[trigger] grown.leaves[i]).commitment,
                ) == grown.leaves[i] by {
                    if i < state.leaves.len() {
                        assert(grown.leaves[i] == state.leaves[i]);
                    }
                }
            }
            lemma_adoption_keeps_order(grown, leaf.justify_qc);
            lemma_adoption_keeps_chain_linked(grown, leaf.justify_qc);
            lemma_adoption_keeps_views(grown, leaf.justify_qc);
            lemma_adoption_keeps_names(named, grown, leaf.justify_qc);
            lemma_adoption_is_checked(membership, grown, leaf.justify_qc);
            lemma_adoption_best_is_accepted(membership, grown, leaf.justify_qc);
            let settled = grown.adopted(leaf.justify_qc);
            let locked = settled.state.relocked(leaf.justify_qc.commitment);
            lemma_relock(settled.state, leaf.justify_qc.commitment);
            assert(state_is_sound(membership, named, locked));
            let advanced = locked.with_certificate(settled.best);
            assert(outcome.actions[i] == advanced.actions[i]);
            lemma_certificate_decision_rests_on_three_chain(
                membership,
                named,
                locked,
                settled.best,
                i,
                commitment,
            )
        },
        Input::Vote { vote } => {
            let at = crate::consensus::accumulator_index(state.accumulators, vote.view_number, vote.data, 0);
            crate::safety::lemma_accumulator_index(state.accumulators, vote.view_number, vote.data, 0);
            let found = at < state.accumulators.len();
            let accumulator = if found {
                state.accumulators[at]
            } else {
                crate::vote::AccumulatorState {
                    data: vote.data,
                    view_number: vote.view_number,
                    threshold: membership.success_threshold(),
                    records: Seq::empty(),
                }
            };
            let rest = if found {
                state.accumulators.remove(at)
            } else {
                state.accumulators
            };
            crate::exchange::lemma_accumulated_votes_are_valid(
                membership,
                vote.key,
                vote.signature,
                vote.data,
                vote.token,
                vote.view_number,
                accumulator,
            );
            let records = match crate::exchange::accumulated(
                membership,
                vote.key,
                vote.signature,
                vote.data,
                vote.token,
                vote.view_number,
                accumulator,
            ) {
                either::Either::Right(records) => records,
                either::Either::Left(_) => Seq::empty(),
            };
            let emptied = ConsensusModel { accumulators: rest, ..state };
            assert(state_is_checked(membership, emptied)) by {
                assert forall|i: int| 0 <= i < rest.len() implies crate::exchange::gathers_valid_votes(
                    membership,
                    #[trigger] rest[i],
                ) by {
                    if found && i >= at {
                        assert(rest[i] == state.accumulators[i + 1]);
                    } else {
                        assert(rest[i] == state.accumulators[i]);
                    }
                }
            }
            let qc = CertificateRecord {
                view_number: vote.view_number,
                commitment: vote.data->Yes_0,
                records,
                genesis: false,
            };
            lemma_certificate_decision_rests_on_three_chain(membership, named, emptied, qc, i, commitment)
        },
        _ => {
            arbitrary()
        },
    }
}

/// The nodes and what happens to them.
pub ghost struct World<M: Membership> {
    /// The election.
    pub membership: M,
    /// The stake of the voters.
    pub table: Seq<StakeRecord>,
    /// The keys of the voters that may do anything.
    pub faulty: Set<Seq<u8>>,
    /// The leaf that a commitment names.
    pub named: spec_fn(Commitment) -> LeafRecord<M::VoteTokenType>,
    /// The leaf that every node starts at.
    pub start: LeafRecord<M::VoteTokenType>,
    /// What happens to the node of a voter, in order.
    pub inputs: spec_fn(Seq<u8>) -> Seq<Input<M::VoteTokenType>>,
}

impl<M: Membership> World<M> {
    /// Whether the voter with this key accepts the leaf with this commitment
    /// at some time.
    pub open spec fn accepts(self, key: M::SignatureKey, commitment: Commitment) -> bool {
        exists|t: int| #[trigger]
            accepted_at(
                &self.membership,
                key,
                ConsensusModel::initial(self.start),
                (self.inputs)(key.encoding()),
                t,
                commitment,
            )
    }

    /// What is taken for granted of the world.
    ///
    /// The election gives no vote more weight than the stake of the voter
    /// and asks for more than two thirds of all stake, and less than a
    /// third of the stake is with faulty voters. A commitment names one
    /// leaf: the leaf that the nodes start at, which is of the first view
    /// of all, and each leaf that is proposed to a voter that is not
    /// faulty, is the leaf that its commitment names. And a signature that verifies under the key of a
    /// voter that is not faulty is over a leaf that the node of this voter
    /// accepted, running as the state machine prescribes.
    pub open spec fn is_fair(self) -> bool {
        &&& forall|view_number: ViewNumber| #[trigger]
            weights_within_stake(&self.membership, self.table, view_number)
        &&& self.membership.success_threshold() >= threshold_for(total_stake(self.table))
        &&& 3 * stake_in(self.table, self.faulty) < total_stake(self.table)
        &&& (self.named)(self.start.commitment) == self.start
        &&& self.start.view_number == GENESIS_VIEW
        &&& forall|key: M::SignatureKey|
            !self.faulty.contains(#[trigger] key.encoding()) ==> inputs_are_named(
                self.named,
                (self.inputs)(key.encoding()),
            )
        &&& forall|key: M::SignatureKey, signature: Seq<u8>, commitment: Commitment|
            !self.faulty.contains(key.encoding()) && #[trigger] key.accepts(
                signature,
                VoteData::Yes(commitment).encoding(),
            ) ==> self.accepts(key, commitment)
    }

    /// Whether a certificate certifies the leaf with this commitment. See
    /// [`certified_by`].
    pub open spec fn certified(self, qc: CertificateRecord<M::VoteTokenType>, commitment: Commitment) -> bool {
        certified_by(&self.membership, qc, commitment)
    }

    /// Whether `child` stands on `parent`, one view above it. See [`stands_on`].
    pub open spec fn stands_on(self, child: Commitment, parent: Commitment) -> bool {
        stands_on(self.named, child, parent)
    }

    /// Whether the leaf `descendant` is the leaf `ancestor` or comes after
    /// it on the chain: the walk from it along the parents, each of a lower
    /// view, reaches the ancestor.
    pub open spec fn extends(self, descendant: Commitment, ancestor: Commitment) -> bool
        decreases (self.named)(descendant).view_number,
    {
        descendant == ancestor || ((self.named)((self.named)(descendant).parent_commitment).view_number < (
        self.named)(descendant).view_number && self.extends(
            (self.named)(descendant).parent_commitment,
            ancestor,
        ))
    }
}

/// The state that every node starts in is sound.
pub proof fn lemma_start_is_sound<M: Membership>(world: World<M>)
    requires
        world.is_fair(),
    ensures
        state_is_sound(&world.membership, world.named, ConsensusModel::initial(world.start)),
{
    lemma_initial_state_is_ordered(world.start);
    lemma_initial_state_is_checked(&world.membership, world.start);
    let state = ConsensusModel::<M::VoteTokenType>::initial(world.start);
    assert(state.leaves[0] == world.start);
}

/// Two certificates share a voter that is not faulty, and that voter's node
/// accepted what either certificate is for.
pub proof fn lemma_shared_voter_accepted_both<M: Membership>(
    world: World<M>,
    first: CertificateRecord<M::VoteTokenType>,
    one: Commitment,
    second: CertificateRecord<M::VoteTokenType>,
    other: Commitment,
) -> (key: M::SignatureKey)
    requires
        world.is_fair(),
        world.certified(first, one),
        world.certified(second, other),
    ensures
        !world.faulty.contains(key.encoding()),
        world.accepts(key, one),
        world.accepts(key, other),
{
    assert(weights_within_stake(&world.membership, world.table, first.view_number));
    assert(weights_within_stake(&world.membership, world.table, second.view_number));
    lemma_votes_within_stake(&world.membership, world.table, first.records, VoteData::Yes(one), first.view_number);
    lemma_votes_within_stake(
        &world.membership,
        world.table,
        second.records,
        VoteData::Yes(other),
        second.view_number,
    );
    let voter = lemma_quorums_intersect(world.table, first.records, second.records, world.faulty);
    let i = choose|i: int| 0 <= i < first.records.len() && #[trigger] first.records[i].key == voter;
    let j = choose|j: int| 0 <= j < second.records.len() && #[trigger] second.records[j].key == voter;
    M::SignatureKey::lemma_encoding_inverts_decoding(voter);
    let key = M::SignatureKey::decoding(voter).unwrap();
    assert(key.accepts(first.records[i].signature, VoteData::Yes(one).encoding()));
    assert(key.accepts(second.records[j].signature, VoteData::Yes(other).encoding()));
    key
}

/// In one view, one leaf at most is certified.
pub proof fn lemma_one_certified_leaf_per_view<M: Membership>(
    world: World<M>,
    first: CertificateRecord<M::VoteTokenType>,
    one: Commitment,
    second: CertificateRecord<M::VoteTokenType>,
    other: Commitment,
)
    requires
        world.is_fair(),
        world.certified(first, one),
        world.certified(second, other),
        (world.named)(one).view_number == (world.named)(other).view_number,
    ensures
        one == other,
{
    let key = lemma_shared_voter_accepted_both(world, first, one, second, other);
    let start = ConsensusModel::initial(world.start);
    let inputs = (world.inputs)(key.encoding());
    let t1 = choose|t: int| #[trigger] accepted_at(&world.membership, key, start, inputs, t, one);
    let t2 = choose|t: int| #[trigger] accepted_at(&world.membership, key, start, inputs, t, other);
    lemma_accepts_in_order(&world.membership, key, world.named, start, inputs, t1, one, t2, other);
}

/// A decided leaf is an ancestor of every leaf that is certified in its
/// view or later.
///
/// Let `b`, `b1` and `b2` be certified leaves, each standing on the one
/// before, one view above it, with `b` of a view after that of the leaf
/// the nodes start at. Then every certified leaf `w` of the view of `b` or
/// a later one is `b` or comes after `b` on the chain. So no leaf that
/// contradicts a decided leaf is ever certified, and none is ever decided.
#[verifier::rlimit(40)]
pub proof fn lemma_certified_leaves_extend_decided<M: Membership>(
    world: World<M>,
    b: Commitment,
    b1: Commitment,
    b2: Commitment,
    q: CertificateRecord<M::VoteTokenType>,
    q1: CertificateRecord<M::VoteTokenType>,
    q2: CertificateRecord<M::VoteTokenType>,
    w: Commitment,
    qw: CertificateRecord<M::VoteTokenType>,
)
    requires
        world.is_fair(),
        world.certified(q, b),
        world.certified(q1, b1),
        world.certified(q2, b2),
        world.stands_on(b1, b),
        world.stands_on(b2, b1),
        (world.named)(b).view_number >= 1,
        world.certified(qw, w),
        (world.named)(w).view_number >= (world.named)(b).view_number,
    ensures
        world.extends(w, b),
    decreases (world.named)(w).view_number,
{
    let view = (world.named)(b).view_number;
    let named = world.named;
    if named(w).view_number == view {
        lemma_one_certified_leaf_per_view(world, qw, w, q, b);
    } else if named(w).view_number == view + 1 {
        lemma_one_certified_leaf_per_view(world, qw, w, q1, b1);
        assert(world.extends(b, b));
    } else if named(w).view_number == view + 2 {
        lemma_one_certified_leaf_per_view(world, qw, w, q2, b2);
        assert(world.extends(b, b));
        assert(world.extends(b1, b));
    } else {
        // a voter that is not faulty accepted both `b2` and `w`, `b2` first
        let key = lemma_shared_voter_accepted_both(world, q2, b2, qw, w);
        let start = ConsensusModel::initial(world.start);
        let inputs = (world.inputs)(key.encoding());
        let t2 = choose|t: int| #[trigger] accepted_at(&world.membership, key, start, inputs, t, b2);
        let tw = choose|t: int| #[trigger] accepted_at(&world.membership, key, start, inputs, t, w);
        lemma_accepts_in_order(&world.membership, key, named, start, inputs, t2, b2, tw, w);
        assert(t2 < tw);
        lemma_start_is_sound(world);
        // when it accepted `b2` it locked no lower than `b`
        let before_b2 = state_before(&world.membership, key, start, inputs, t2);
        lemma_run_is_sound(&world.membership, key, named, start, inputs, t2);
        assert(input_is_named(named, inputs[t2]));
        lemma_accepting_locks(&world.membership, key, named, before_b2, inputs[t2], b2);
        lemma_state_before_step(&world.membership, key, start, inputs, t2);
        lemma_run_keeps_views(&world.membership, key, start, inputs, t2 + 1, tw);
        // so that what it accepted later carries a certificate of the view of `b` or later
        let before_w = state_before(&world.membership, key, start, inputs, tw);
        lemma_run_is_sound(&world.membership, key, named, start, inputs, tw);
        lemma_vote_source(before_w, &world.membership, key, inputs[tw], w);
        let leaf = named(w);
        let parent = leaf.parent_commitment;
        assert(before_w.locked_view >= view);
        assert(leaf.justify_qc.view_number >= view);
        let at = choose|i: int|
            0 <= i < before_w.leaves.len() && #[trigger] before_w.leaves[i].commitment == parent;
        lemma_leaf_of(before_w.leaves, at);
        assert(before_w.leaves[at] == named(parent));
        lemma_accepted_certificate_has_quorum(&world.membership, leaf.justify_qc, VoteData::Yes(parent));
        assert(world.certified(leaf.justify_qc, parent));
        lemma_certified_leaves_extend_decided(world, b, b1, b2, q, q1, q2, parent, leaf.justify_qc);
    }
}

/// Of two decided leaves, the one of the later view comes after the other
/// on the chain: what the nodes decide is one chain.
pub proof fn lemma_decided_leaves_are_one_chain<M: Membership>(
    world: World<M>,
    b: Commitment,
    b1: Commitment,
    b2: Commitment,
    q: CertificateRecord<M::VoteTokenType>,
    q1: CertificateRecord<M::VoteTokenType>,
    q2: CertificateRecord<M::VoteTokenType>,
    c: Commitment,
    c1: Commitment,
    c2: Commitment,
    r: CertificateRecord<M::VoteTokenType>,
    r1: CertificateRecord<M::VoteTokenType>,
    r2: CertificateRecord<M::VoteTokenType>,
)
    requires
        world.is_fair(),
        world.certified(q, b),
        world.certified(q1, b1),
        world.certified(q2, b2),
        world.stands_on(b1, b),
        world.stands_on(b2, b1),
        (world.named)(b).view_number >= 1,
        world.certified(r, c),
        world.certified(r1, c1),
        world.certified(r2, c2),
        world.stands_on(c1, c),
        world.stands_on(c2, c1),
        (world.named)(c).view_number >= 1,
    ensures
        (world.named)(b).view_number <= (world.named)(c).view_number ==> world.extends(c, b),
        (world.named)(c).view_number <= (world.named)(b).view_number ==> world.extends(b, c),
{
    if (world.named)(b).view_number <= (world.named)(c).view_number {
        lemma_certified_leaves_extend_decided(world, b, b1, b2, q, q1, q2, c, r);
    }
    if (world.named)(c).view_number <= (world.named)(b).view_number {
        lemma_certified_leaves_extend_decided(world, c, c1, c2, r, r1, r2, b, q);
    }
}

/// What the nodes decide is one chain.
///
/// Take the nodes of two voters that are not faulty, each at a time at
/// which it decides leaves. Of the newest leaves that the two decide, the
/// one of the later view is the other or comes after it on the chain.
pub proof fn lemma_nodes_decide_one_chain<M: Membership>(
    world: World<M>,
    first: M::SignatureKey,
    first_time: int,
    first_place: int,
    one: Commitment,
    second: M::SignatureKey,
    second_time: int,
    second_place: int,
    other: Commitment,
)
    requires
        world.is_fair(),
        !world.faulty.contains(first.encoding()),
        !world.faulty.contains(second.encoding()),
        0 <= first_time < (world.inputs)(first.encoding()).len(),
        0 <= second_time < (world.inputs)(second.encoding()).len(),
        decides_leaf(
            state_before(
                &world.membership,
                first,
                ConsensusModel::initial(world.start),
                (world.inputs)(first.encoding()),
                first_time,
            ).next(&world.membership, first, (world.inputs)(first.encoding())[first_time]).actions,
            first_place,
            one,
        ),
        decides_leaf(
            state_before(
                &world.membership,
                second,
                ConsensusModel::initial(world.start),
                (world.inputs)(second.encoding()),
                second_time,
            ).next(&world.membership, second, (world.inputs)(second.encoding())[second_time]).actions,
            second_place,
            other,
        ),
    ensures
        (world.named)(one).view_number <= (world.named)(other).view_number ==> world.extends(other, one),
        (world.named)(other).view_number <= (world.named)(one).view_number ==> world.extends(one, other),
{
    let start = ConsensusModel::initial(world.start);
    lemma_start_is_sound(world);
    let first_inputs = (world.inputs)(first.encoding());
    let second_inputs = (world.inputs)(second.encoding());
    lemma_run_is_sound(&world.membership, first, world.named, start, first_inputs, first_time);
    lemma_run_is_sound(&world.membership, second, world.named, start, second_inputs, second_time);
    assert(input_is_named(world.named, first_inputs[first_time]));
    assert(input_is_named(world.named, second_inputs[second_time]));
    let b = lemma_decision_rests_on_three_chain(
        &world.membership,
        first,
        world.named,
        state_before(&world.membership, first, start, first_inputs, first_time),
        first_inputs[first_time],
        first_place,
        one,
    );
    let c = lemma_decision_rests_on_three_chain(
        &world.membership,
        second,
        world.named,
        state_before(&world.membership, second, start, second_inputs, second_time),
        second_inputs[second_time],
        second_place,
        other,
    );
    lemma_decided_leaves_are_one_chain(
        world,
        b.b,
        b.b1,
        b.b2,
        b.q,
        b.q1,
        b.q2,
        c.b,
        c.b1,
        c.b2,
        c.q,
        c.q1,
        c.q2,
    );
}

/// A leaf that comes after another on the chain is of no lower view.
pub proof fn lemma_extends_raises_view<M: Membership>(world: World<M>, descendant: Commitment, ancestor: Commitment)
    requires
        world.extends(descendant, ancestor),
    ensures
        (world.named)(descendant).view_number >= (world.named)(ancestor).view_number,
        (world.named)(descendant).view_number == (world.named)(ancestor).view_number ==> descendant == ancestor,
    decreases (world.named)(descendant).view_number,
{
    if descendant != ancestor {
        lemma_extends_raises_view(world, (world.named)(descendant).parent_commitment, ancestor);
    }
}

/// Two nodes never decide two leaves in one view.
///
/// Take two decisions of certified leaves, as the nodes of voters that are
/// not faulty make them, and a leaf of each, of the same view, each the leaf
/// that its commitment names. The two leaves are one leaf.
pub proof fn lemma_nodes_decide_one_leaf_per_view<M: Membership>(
    world: World<M>,
    first_chain: Seq<LeafRecord<M::VoteTokenType>>,
    first_qc: CertificateRecord<M::VoteTokenType>,
    first: int,
    second_chain: Seq<LeafRecord<M::VoteTokenType>>,
    second_qc: CertificateRecord<M::VoteTokenType>,
    second: int,
)
    requires
        world.is_fair(),
        decide_is_certified(&world.membership, first_chain, first_qc),
        decide_is_certified(&world.membership, second_chain, second_qc),
        0 <= first < first_chain.len(),
        0 <= second < second_chain.len(),
        first_chain[first].view_number == second_chain[second].view_number,
        (world.named)(first_chain[first].commitment) == first_chain[first],
        (world.named)(second_chain[second].commitment) == second_chain[second],
    ensures
        first_chain[first] == second_chain[second],
{
    let one = if first == 0 {
        first_qc
    } else {
        first_chain[first - 1].justify_qc
    };
    let other = if second == 0 {
        second_qc
    } else {
        second_chain[second - 1].justify_qc
    };
    assert(certifies(&world.membership, one, first_chain[first]));
    assert(certifies(&world.membership, other, second_chain[second]));
    lemma_one_certified_leaf_per_view(
        world,
        one,
        first_chain[first].commitment,
        other,
        second_chain[second].commitment,
    );
}

} // verus!
