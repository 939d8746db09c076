//! What holds of every node that runs the state machine, and of every two
//! certificates that honest voters had a part in.

use vstd::prelude::*;
use crate::certificate::CertificateRecord;
use crate::chain::{commitments_distinct, has_leaf, leaf_of, leaves_from, lemma_filter_keeps_distinct, lemma_leaf_of, lemma_lineage, lemma_push_keeps_leaves, lineage, walks_down};
use crate::consensus::{ActionRecord, BlockInfo, CastVote, ConsensusError, ConsensusModel, EventRecord, Outcome};
use crate::data::{Commitment, LeafRecord, ViewNumber, VoteData};
use crate::election::{Checked, Membership, VoteToken};
use crate::exchange::{certificate_accepted, lemma_accumulated_votes_are_valid, gathers_valid_votes, quorum_of_votes, valid_vote};
use crate::signature_key::SignatureKey;
use crate::stake::{stake_of, StakeRecord};

verus! {

/// What can happen to a node.
pub ghost enum Input<T> {
    /// The node enters a view, with a new block to propose if there is one.
    Enter { view_number: ViewNumber, block: Option<BlockInfo> },
    /// A proposal comes in.
    Proposal { leaf: LeafRecord<T>, justify_qc_commitment: Commitment },
    /// A vote comes in.
    Vote { vote: CastVote<T> },
    /// A certificate of the data-availability committee comes in; `accepted`
    /// says whether it holds a quorum.
    Available { accepted: bool, view_number: ViewNumber, block_commitment: Commitment },
    /// The timer of the current view fires.
    Timer,
    /// Something failed outside the node.
    Failure { kind: ConsensusError },
}

impl<T: VoteToken> ConsensusModel<T> {
    /// What becomes of the state when something happens.
    pub open spec fn next<M: Membership<VoteTokenType = T>>(
        self,
        membership: &M,
        own_key: M::SignatureKey,
        input: Input<T>,
    ) -> Outcome<T> {
        match input {
            Input::Enter { view_number, block } => self.entered(
                view_number,
                block,
                membership.leader(view_number) == own_key,
            ),
            Input::Proposal { leaf, justify_qc_commitment } => self.with_proposal(
                membership,
                leaf,
                justify_qc_commitment,
            ),
            Input::Vote { vote } => self.with_vote(membership, own_key, vote),
            Input::Available { accepted, view_number, block_commitment } => self.with_available(
                accepted,
                view_number,
                block_commitment,
            ),
            Input::Timer => self.timed_out(membership, own_key),
            Input::Failure { kind } => self.failed(kind),
        }
    }

    /// What becomes of the state when one thing happens after another, and
    /// all that is to be done on the way.
    pub open spec fn run<M: Membership<VoteTokenType = T>>(
        self,
        membership: &M,
        own_key: M::SignatureKey,
        inputs: Seq<Input<T>>,
    ) -> Outcome<T>
        decreases inputs.len(),
    {
        if inputs.len() == 0 {
            self.idle()
        } else {
            let before = self.run(membership, own_key, inputs.drop_last());
            let step = before.state.next(membership, own_key, inputs.last());
            Outcome { state: step.state, actions: before.actions + step.actions }
        }
    }
}

/// Whether a state is no further along than another: no view that a node
/// keeps has fallen from the first to the second.
pub open spec fn no_view_fell<T>(before: ConsensusModel<T>, after: ConsensusModel<T>) -> bool {
    &&& before.current_view <= after.current_view
    &&& before.last_proposed_view <= after.last_proposed_view
    &&& before.last_voted_view <= after.last_voted_view
    &&& before.anchor_view <= after.anchor_view
    &&& before.locked_view <= after.locked_view
    &&& before.highest_qc.view_number <= after.highest_qc.view_number
}

/// Learning of a certificate lets no view fall and changes neither the
/// current view nor the views last voted and proposed in.
pub proof fn lemma_certificate_keeps_views<T: VoteToken>(state: ConsensusModel<T>, qc: CertificateRecord<T>)
    ensures
        no_view_fell(state, state.with_certificate(qc).state),
        state.with_certificate(qc).state.current_view == state.current_view,
        state.with_certificate(qc).state.last_voted_view == state.last_voted_view,
        state.with_certificate(qc).state.last_proposed_view == state.last_proposed_view,
        forall|i: int|
            0 <= i < state.with_certificate(qc).actions.len() ==> #[trigger] state.with_certificate(
                qc,
            ).actions[i] is Emit,
{
}

/// Letting waiting leaves join the chain changes nothing but the leaves.
pub proof fn lemma_adoption_keeps_views<T: VoteToken>(state: ConsensusModel<T>, best: CertificateRecord<T>)
    ensures
        state.adopted(best).state == (ConsensusModel {
            leaves: state.adopted(best).state.leaves,
            pending: state.adopted(best).state.pending,
            ..state
        }),
    decreases state.pending.len(),
{
    let at = state.first_adoptable(0);
    if 0 <= at < state.pending.len() {
        let leaf = state.pending[at];
        lemma_adoption_keeps_views(
            ConsensusModel { leaves: state.leaves.push(leaf), pending: state.pending.remove(at), ..state },
            if leaf.justify_qc.view_number > best.view_number {
                leaf.justify_qc
            } else {
                best
            },
        );
    }
}

/// Moving the lock changes nothing but the lock, which does not fall, and
/// the leaf that the node is then locked on is known and of the view of the
/// lock, where that held before and no two leaves have the same commitment.
pub proof fn lemma_relock<T: VoteToken>(state: ConsensusModel<T>, tip: Commitment)
    ensures
        state.relocked(tip) == (ConsensusModel {
            locked_view: state.relocked(tip).locked_view,
            locked_leaf: state.relocked(tip).locked_leaf,
            ..state
        }),
        state.locked_view <= state.relocked(tip).locked_view,
        commitments_distinct(state.leaves) && has_leaf(state.leaves, state.locked_leaf) && leaf_of(
            state.leaves,
            state.locked_leaf,
        ).view_number == state.locked_view ==> has_leaf(state.leaves, state.relocked(tip).locked_leaf)
            && leaf_of(state.leaves, state.relocked(tip).locked_leaf).view_number == state.relocked(
            tip,
        ).locked_view,
{
    match state.locked_by(tip) {
        Some(parent) => {
            if commitments_distinct(state.leaves) {
                let leaf = leaf_of(state.leaves, tip);
                let at = choose|i: int|
                    0 <= i < state.leaves.len() && #[trigger] state.leaves[i].commitment
                        == leaf.parent_commitment;
                lemma_leaf_of(state.leaves, at);
            }
        },
        None => {},
    }
}

/// Whatever happens to a node, the view of the leaf it decided last never
/// falls, and neither does the view it is in, the last view it voted or
/// proposed in, the view it is locked on, or the view of the highest
/// certificate it knows.
#[verifier::rlimit(40)]
pub proof fn lemma_views_never_fall<T: VoteToken, M: Membership<VoteTokenType = T>>(
    state: ConsensusModel<T>,
    membership: &M,
    own_key: M::SignatureKey,
    input: Input<T>,
)
    ensures
        no_view_fell(state, state.next(membership, own_key, input).state),
{
    match input {
        Input::Proposal { leaf, justify_qc_commitment } => {
            let grown = ConsensusModel { leaves: state.leaves.push(leaf), ..state };
            lemma_adoption_keeps_views(grown, leaf.justify_qc);
            let settled = grown.adopted(leaf.justify_qc);
            lemma_relock(settled.state, leaf.justify_qc.commitment);
            lemma_certificate_keeps_views(
                settled.state.relocked(leaf.justify_qc.commitment),
                settled.best,
            );
        },
        Input::Vote { vote } => {
            let after = state.with_vote(membership, own_key, vote).state;
            if state.gathers(membership, own_key, vote) {
                if vote.data is Yes {
                    let commitment = vote.data->Yes_0;
                    assert forall|rest: ConsensusModel<T>, qc: CertificateRecord<T>|
                        no_view_fell(state, rest) implies no_view_fell(
                        state,
                        #[trigger] rest.with_certificate(qc).state,
                    ) by {
                        lemma_certificate_keeps_views(rest, qc);
                    }
                }
            }
        },
        _ => {},
    }
}

/// Over any run of a node, the view of the leaf it decided last never falls.
pub proof fn lemma_anchor_never_falls<T: VoteToken, M: Membership<VoteTokenType = T>>(
    state: ConsensusModel<T>,
    membership: &M,
    own_key: M::SignatureKey,
    inputs: Seq<Input<T>>,
)
    ensures
        no_view_fell(state, state.run(membership, own_key, inputs).state),
    decreases inputs.len(),
{
    if inputs.len() > 0 {
        lemma_anchor_never_falls(state, membership, own_key, inputs.drop_last());
        lemma_views_never_fall(
            state.run(membership, own_key, inputs.drop_last()).state,
            membership,
            own_key,
            inputs.last(),
        );
    }
}

/// Whether the votes on leaves among `actions` are of views that rise from
/// one vote to the next, all above `floor` and none above `ceiling`.
pub open spec fn votes_rise<T>(actions: Seq<ActionRecord<T>>, floor: ViewNumber, ceiling: ViewNumber) -> bool {
    &&& forall|i: int|
        0 <= i < actions.len() && #[trigger] actions[i] is Vote ==> floor < actions[i]->Vote_view_number
            <= ceiling
    &&& forall|i: int, j: int|
        0 <= i < j < actions.len() && #[trigger] actions[i] is Vote && #[trigger] actions[j] is Vote
            ==> actions[i]->Vote_view_number < actions[j]->Vote_view_number
}

/// Whatever happens to a node, it votes on one leaf at most, and only in a
/// view above the last it voted in, which it then remembers.
#[verifier::rlimit(40)]
pub proof fn lemma_votes_once<T: VoteToken, M: Membership<VoteTokenType = T>>(
    state: ConsensusModel<T>,
    membership: &M,
    own_key: M::SignatureKey,
    input: Input<T>,
)
    ensures
        votes_rise(
            state.next(membership, own_key, input).actions,
            state.last_voted_view,
            state.next(membership, own_key, input).state.last_voted_view,
        ),
        state.last_voted_view <= state.next(membership, own_key, input).state.last_voted_view,
{
    match input {
        Input::Proposal { leaf, justify_qc_commitment } => {
            let grown = ConsensusModel { leaves: state.leaves.push(leaf), ..state };
            lemma_adoption_keeps_views(grown, leaf.justify_qc);
            let settled = grown.adopted(leaf.justify_qc);
            lemma_relock(settled.state, leaf.justify_qc.commitment);
            lemma_certificate_keeps_views(
                settled.state.relocked(leaf.justify_qc.commitment),
                settled.best,
            );
        },
        Input::Vote { vote } => {
            if state.gathers(membership, own_key, vote) {
                assert forall|rest: ConsensusModel<T>, qc: CertificateRecord<T>|
                    rest.last_voted_view == state.last_voted_view implies votes_rise(
                    #[trigger] rest.with_certificate(qc).actions,
                    state.last_voted_view,
                    rest.with_certificate(qc).state.last_voted_view,
                ) && rest.with_certificate(qc).state.last_voted_view == state.last_voted_view by {
                    lemma_certificate_keeps_views(rest, qc);
                }
            }
        },
        _ => {},
    }
}

/// Over any run of a node, the votes it casts on leaves are of views that
/// rise from one vote to the next: the node never votes on two leaves in one
/// view.
pub proof fn lemma_never_votes_twice<T: VoteToken, M: Membership<VoteTokenType = T>>(
    state: ConsensusModel<T>,
    membership: &M,
    own_key: M::SignatureKey,
    inputs: Seq<Input<T>>,
)
    ensures
        votes_rise(
            state.run(membership, own_key, inputs).actions,
            state.last_voted_view,
            state.run(membership, own_key, inputs).state.last_voted_view,
        ),
        state.last_voted_view <= state.run(membership, own_key, inputs).state.last_voted_view,
    decreases inputs.len(),
{
    if inputs.len() > 0 {
        let before = state.run(membership, own_key, inputs.drop_last());
        lemma_never_votes_twice(state, membership, own_key, inputs.drop_last());
        lemma_votes_once(before.state, membership, own_key, inputs.last());
    }
}

/// Two votes that a node casts in one view over a run are one and the same
/// vote: on the same leaf.
pub proof fn lemma_one_vote_per_view<T: VoteToken, M: Membership<VoteTokenType = T>>(
    state: ConsensusModel<T>,
    membership: &M,
    own_key: M::SignatureKey,
    inputs: Seq<Input<T>>,
    i: int,
    j: int,
)
    requires
        0 <= i < state.run(membership, own_key, inputs).actions.len(),
        0 <= j < state.run(membership, own_key, inputs).actions.len(),
        state.run(membership, own_key, inputs).actions[i] is Vote,
        state.run(membership, own_key, inputs).actions[j] is Vote,
        state.run(membership, own_key, inputs).actions[i]->Vote_view_number == state.run(
            membership,
            own_key,
            inputs,
        ).actions[j]->Vote_view_number,
    ensures
        i == j,
        state.run(membership, own_key, inputs).actions[i]->Vote_data == state.run(
            membership,
            own_key,
            inputs,
        ).actions[j]->Vote_data,
{
    lemma_never_votes_twice(state, membership, own_key, inputs);
}

/// Whether the election gives no vote in a view more weight than the stake
/// of the voter.
pub open spec fn weights_within_stake<M: Membership>(
    membership: &M,
    table: Seq<StakeRecord>,
    view_number: ViewNumber,
) -> bool {
    forall|key: M::SignatureKey, token: M::VoteTokenType|
        (#[trigger] membership.validated_token(view_number, key, Checked::Unchecked(token)) matches Ok(
            Checked::Valid(_),
        )) ==> token.weight() <= stake_of(table, key.encoding())
}

/// Votes that count weigh no more than the stake of their voters, where the
/// election gives no vote more weight than that.
pub proof fn lemma_votes_within_stake<M: Membership>(
    membership: &M,
    table: Seq<StakeRecord>,
    records: Seq<crate::certificate::VoteRecord<M::VoteTokenType>>,
    data: VoteData,
    view_number: ViewNumber,
)
    requires
        crate::exchange::valid_votes(membership, records, data, view_number),
        weights_within_stake(membership, table, view_number),
    ensures
        forall|i: int|
            0 <= i < records.len() ==> (#[trigger] records[i]).token.weight() <= stake_of(
                table,
                records[i].key,
            ),
{
    assert forall|i: int| 0 <= i < records.len() implies (#[trigger] records[i]).token.weight() <= stake_of(
        table,
        records[i].key,
    ) by {
        let record = records[i];
        assert(valid_vote(
            membership,
            record.key,
            record.signature,
            data,
            view_number,
            Checked::Unchecked(record.token),
        ));
        M::SignatureKey::lemma_encoding_inverts_decoding(record.key);
    }
}

/// Whether a leaf carries a certificate that is for its parent and accepted.
pub open spec fn carries_certificate<M: Membership>(membership: &M, leaf: LeafRecord<M::VoteTokenType>) -> bool {
    &&& leaf.justify_qc.commitment == leaf.parent_commitment
    &&& certificate_accepted(membership, leaf.justify_qc, VoteData::Yes(leaf.parent_commitment))
}

/// Whether what a node knows was checked: no two leaves have the same
/// commitment, each leaf above the anchor and each waiting leaf carries an
/// accepted certificate for its parent, and each accumulator gathers valid
/// votes for the membership.
pub open spec fn state_is_checked<M: Membership>(membership: &M, state: ConsensusModel<M::VoteTokenType>) -> bool {
    &&& commitments_distinct(state.leaves)
    &&& forall|i: int|
        0 <= i < state.leaves.len() && (#[trigger] state.leaves[i]).view_number > state.anchor_view
            ==> carries_certificate(membership, state.leaves[i])
    &&& forall|i: int|
        0 <= i < state.pending.len() ==> carries_certificate(membership, #[trigger] state.pending[i])
    &&& forall|i: int|
        0 <= i < state.accumulators.len() ==> gathers_valid_votes(membership, #[trigger] state.accumulators[i])
}

/// Whether a certificate certifies a leaf: it is for the leaf and of the
/// view of the leaf, and holds a quorum of votes that accept the leaf in
/// that view.
pub open spec fn certifies<M: Membership>(
    membership: &M,
    qc: CertificateRecord<M::VoteTokenType>,
    leaf: LeafRecord<M::VoteTokenType>,
) -> bool {
    &&& qc.commitment == leaf.commitment
    &&& qc.view_number == leaf.view_number
    &&& quorum_of_votes(membership, qc.records, VoteData::Yes(leaf.commitment), leaf.view_number)
}

/// Whether each of the leaves is certified: the first by `qc`, and each
/// other by the certificate that the leaf before it carries; and the views
/// fall from each leaf to the next.
pub open spec fn decide_is_certified<M: Membership>(
    membership: &M,
    leaf_chain: Seq<LeafRecord<M::VoteTokenType>>,
    qc: CertificateRecord<M::VoteTokenType>,
) -> bool {
    &&& leaf_chain.len() >= 1
    &&& certifies(membership, qc, leaf_chain[0])
    &&& forall|i: int|
        1 <= i < leaf_chain.len() ==> certifies(
            membership,
            leaf_chain[i - 1].justify_qc,
            #[trigger] leaf_chain[i],
        ) && leaf_chain[i].view_number < leaf_chain[i - 1].view_number
}

/// Whether each decision among `actions` is of certified leaves.
pub open spec fn decides_are_certified<M: Membership>(
    membership: &M,
    actions: Seq<ActionRecord<M::VoteTokenType>>,
) -> bool {
    forall|i: int|
        0 <= i < actions.len() ==> (#[trigger] actions[i] matches ActionRecord::Emit {
            event: EventRecord::Decide { leaf_chain, qc, .. },
        } ==> decide_is_certified(membership, leaf_chain, qc))
}

/// Whether each timeout certificate among `actions` holds a quorum of votes
/// on the timeout of its view.
pub open spec fn timeouts_hold_quorums<M: Membership>(
    membership: &M,
    actions: Seq<ActionRecord<M::VoteTokenType>>,
) -> bool {
    forall|i: int|
        0 <= i < actions.len() ==> (#[trigger] actions[i] matches ActionRecord::BroadcastTimeoutCertificate {
            view_number,
            records,
        } ==> quorum_of_votes(membership, records, VoteData::Timeout(view_number), view_number))
}

/// The state of a node that starts is checked.
pub proof fn lemma_initial_state_is_checked<M: Membership>(membership: &M, anchor: LeafRecord<M::VoteTokenType>)
    ensures
        state_is_checked(membership, ConsensusModel::initial(anchor)),
{
}

/// Whether `leaf` is among `leaves`.
pub open spec fn is_among<A>(items: Seq<A>, item: A) -> bool {
    exists|k: int| 0 <= k < items.len() && #[trigger] items[k] == item
}

/// Each of the leaves that are kept was there before.
pub proof fn lemma_kept_leaves_were_there<T>(leaves: Seq<LeafRecord<T>>, floor: ViewNumber)
    ensures
        forall|i: int|
            0 <= i < leaves_from(leaves, floor).len() ==> is_among(leaves, #[trigger] leaves_from(leaves, floor)[i]),
    decreases leaves.len(),
{
    reveal(Seq::filter);
    if leaves.len() > 0 {
        let rest = leaves.drop_last();
        lemma_kept_leaves_were_there(rest, floor);
        let kept = leaves_from(leaves, floor);
        let kept_rest = leaves_from(rest, floor);
        assert forall|i: int| 0 <= i < kept.len() implies is_among(leaves, #[trigger] kept[i]) by {
            if i < kept_rest.len() {
                assert(kept[i] == kept_rest[i]);
                assert(is_among(rest, kept_rest[i]));
                let k = choose|k: int| 0 <= k < rest.len() && #[trigger] rest[k] == kept_rest[i];
                assert(leaves[k] == kept[i]);
            } else {
                assert(leaves[leaves.len() - 1] == kept[i]);
            }
        }
    }
}

/// Each of the accumulators that are kept was there before.
pub proof fn lemma_kept_accumulators_were_there<T: VoteToken>(
    accumulators: Seq<crate::vote::AccumulatorState<T>>,
    floor: ViewNumber,
)
    ensures
        forall|i: int|
            0 <= i < crate::consensus::accumulators_from(accumulators, floor).len() ==> is_among(
                accumulators,
                #[trigger] crate::consensus::accumulators_from(accumulators, floor)[i],
            ),
    decreases accumulators.len(),
{
    reveal(Seq::filter);
    if accumulators.len() > 0 {
        let rest = accumulators.drop_last();
        lemma_kept_accumulators_were_there(rest, floor);
        let kept = crate::consensus::accumulators_from(accumulators, floor);
        let kept_rest = crate::consensus::accumulators_from(rest, floor);
        assert forall|i: int| 0 <= i < kept.len() implies is_among(accumulators, #[trigger] kept[i]) by {
            if i < kept_rest.len() {
                assert(kept[i] == kept_rest[i]);
                assert(is_among(rest, kept_rest[i]));
                let k = choose|k: int| 0 <= k < rest.len() && #[trigger] rest[k] == kept_rest[i];
                assert(accumulators[k] == kept[i]);
            } else {
                assert(accumulators[accumulators.len() - 1] == kept[i]);
            }
        }
    }
}

/// Forgetting what is of a view below `floor`, and moving the anchor up to
/// that view, keeps a checked state checked.
pub proof fn lemma_pruned_state_is_checked<M: Membership>(
    membership: &M,
    state: ConsensusModel<M::VoteTokenType>,
    after: ConsensusModel<M::VoteTokenType>,
    floor: ViewNumber,
)
    requires
        state_is_checked(membership, state),
        after.leaves == leaves_from(state.leaves, floor),
        after.pending == leaves_from(state.pending, floor),
        after.accumulators == crate::consensus::accumulators_from(state.accumulators, floor),
        after.anchor_view >= state.anchor_view,
    ensures
        state_is_checked(membership, after),
{
    lemma_filter_keeps_distinct(state.leaves, floor);
    lemma_kept_leaves_were_there(state.leaves, floor);
    lemma_kept_leaves_were_there(state.pending, floor);
    lemma_kept_accumulators_were_there(state.accumulators, floor);
    assert forall|i: int|
        0 <= i < after.leaves.len() && (#[trigger] after.leaves[i]).view_number
            > after.anchor_view implies carries_certificate(membership, after.leaves[i]) by {
        assert(is_among(state.leaves, after.leaves[i]));
        let k = choose|k: int| 0 <= k < state.leaves.len() && #[trigger] state.leaves[k] == after.leaves[i];
        assert(carries_certificate(membership, state.leaves[k]));
    }
    assert forall|i: int| 0 <= i < after.pending.len() implies carries_certificate(
        membership,
        #[trigger] after.pending[i],
    ) by {
        assert(is_among(state.pending, after.pending[i]));
        let k = choose|k: int| 0 <= k < state.pending.len() && #[trigger] state.pending[k] == after.pending[i];
        assert(carries_certificate(membership, state.pending[k]));
    }
    assert forall|i: int| 0 <= i < after.accumulators.len() implies gathers_valid_votes(
        membership,
        #[trigger] after.accumulators[i],
    ) by {
        assert(is_among(state.accumulators, after.accumulators[i]));
        let k = choose|k: int|
            0 <= k < state.accumulators.len() && #[trigger] state.accumulators[k] == after.accumulators[i];
        assert(gathers_valid_votes(membership, state.accumulators[k]));
    }
}

/// The leaves on the walk from a decided leaf down to the anchor are
/// certified, the decided leaf by the certificate that the leaf above it
/// carries.
pub proof fn lemma_lineage_is_certified<M: Membership>(
    membership: &M,
    state: ConsensusModel<M::VoteTokenType>,
    tip: Commitment,
)
    requires
        state_is_checked(membership, state),
        state.decided_by(tip) is Some,
        state.decided_by(tip).unwrap().view_number > state.anchor_view,
    ensures
        decide_is_certified(
            membership,
            lineage(state.leaves, state.decided_by(tip).unwrap().commitment, state.anchor_view),
            state.locked_by(tip).unwrap().justify_qc,
        ),
{
    let decided = state.decided_by(tip).unwrap();
    let leaf = leaf_of(state.leaves, tip);
    let parent = state.locked_by(tip).unwrap();
    let chain = lineage(state.leaves, decided.commitment, state.anchor_view);
    // the parent of the tip is a leaf above the anchor, so that its certificate was accepted
    let at = choose|i: int|
        0 <= i < state.leaves.len() && #[trigger] state.leaves[i].commitment == leaf.parent_commitment;
    lemma_leaf_of(state.leaves, at);
    assert(carries_certificate(membership, state.leaves[at]));
    let under = choose|i: int|
        0 <= i < state.leaves.len() && #[trigger] state.leaves[i].commitment == parent.parent_commitment;
    lemma_leaf_of(state.leaves, under);
    lemma_lineage(state.leaves, decided.commitment, state.anchor_view);
    assert(chain[0] == decided);
    assert(certifies(membership, parent.justify_qc, chain[0]));
    assert forall|i: int| 1 <= i < chain.len() implies certifies(
        membership,
        chain[i - 1].justify_qc,
        #[trigger] chain[i],
    ) && chain[i].view_number < chain[i - 1].view_number by {
        assert(walks_down(state.leaves, chain[i - 1], chain[i]));
        let child = chain[i - 1];
        assert(has_leaf(state.leaves, child.commitment) && leaf_of(state.leaves, child.commitment) == child);
        let k = choose|k: int|
            0 <= k < state.leaves.len() && #[trigger] state.leaves[k].commitment == child.commitment;
        lemma_leaf_of(state.leaves, k);
        assert(carries_certificate(membership, state.leaves[k]));
    }
}

/// Deciding keeps a checked state checked, and what is decided is certified.
pub proof fn lemma_commit_is_certified<M: Membership>(
    membership: &M,
    state: ConsensusModel<M::VoteTokenType>,
    tip: Commitment,
)
    requires
        state_is_checked(membership, state),
    ensures
        state_is_checked(membership, state.committed(tip).state),
        decides_are_certified(membership, state.committed(tip).actions),
{
    match state.decided_by(tip) {
        Some(decided) => {
            if decided.view_number > state.anchor_view && crate::chain::lineage_end(
                state.leaves,
                decided.commitment,
                state.anchor_view,
            ) == state.anchor_leaf {
                lemma_lineage_is_certified(membership, state, tip);
                lemma_pruned_state_is_checked(membership, state, state.committed(tip).state, decided.view_number);
            }
        },
        None => {},
    }
}

/// Learning of a certificate keeps a checked state checked, and what is
/// decided is certified.
pub proof fn lemma_certificate_is_certified<M: Membership>(
    membership: &M,
    state: ConsensusModel<M::VoteTokenType>,
    qc: CertificateRecord<M::VoteTokenType>,
)
    requires
        state_is_checked(membership, state),
    ensures
        state_is_checked(membership, state.with_certificate(qc).state),
        decides_are_certified(membership, state.with_certificate(qc).actions),
{
    let highest = if qc.view_number > state.highest_qc.view_number {
        qc
    } else {
        state.highest_qc
    };
    let raised = ConsensusModel { highest_qc: highest, ..state };
    lemma_commit_is_certified(membership, raised.relocked(highest.commitment), highest.commitment);
}

/// Letting waiting leaves join the chain keeps a checked state checked.
pub proof fn lemma_adoption_is_checked<M: Membership>(
    membership: &M,
    state: ConsensusModel<M::VoteTokenType>,
    best: CertificateRecord<M::VoteTokenType>,
)
    requires
        state_is_checked(membership, state),
    ensures
        state_is_checked(membership, state.adopted(best).state),
    decreases state.pending.len(),
{
    let at = state.first_adoptable(0);
    if 0 <= at < state.pending.len() {
        lemma_first_adoptable(state, 0);
        let leaf = state.pending[at];
        let next = ConsensusModel {
            leaves: state.leaves.push(leaf),
            pending: state.pending.remove(at),
            ..state
        };
        lemma_push_keeps_leaves(state.leaves, leaf);
        assert forall|i: int|
            0 <= i < next.leaves.len() && (#[trigger] next.leaves[i]).view_number
                > next.anchor_view implies carries_certificate(membership, next.leaves[i]) by {
            if i < state.leaves.len() {
                assert(next.leaves[i] == state.leaves[i]);
            } else {
                assert(next.leaves[i] == state.pending[at]);
            }
        }
        assert forall|i: int| 0 <= i < next.pending.len() implies carries_certificate(
            membership,
            #[trigger] next.pending[i],
        ) by {
            if i < at {
                assert(next.pending[i] == state.pending[i]);
            } else {
                assert(next.pending[i] == state.pending[i + 1]);
            }
        }
        lemma_adoption_is_checked(
            membership,
            next,
            if leaf.justify_qc.view_number > best.view_number {
                leaf.justify_qc
            } else {
                best
            },
        );
    }
}

/// The first waiting leaf that can join the chain, where there is one, can
/// join the chain.
pub proof fn lemma_first_adoptable<T: VoteToken>(state: ConsensusModel<T>, start: int)
    requires
        0 <= start,
    ensures
        start <= state.first_adoptable(start) <= state.pending.len() || state.first_adoptable(start)
            == state.pending.len(),
        state.first_adoptable(start) < state.pending.len() ==> state.adoptable(
            state.pending[state.first_adoptable(start)],
        ),
    decreases state.pending.len() - start,
{
    if start < state.pending.len() && !state.adoptable(state.pending[start]) {
        lemma_first_adoptable(state, start + 1);
    }
}

/// Whatever happens to a node, a checked state stays checked, the leaves
/// that the node decides are certified, each by a quorum of votes that
/// accept it in its own view, and the timeout certificates that the node
/// sends hold a quorum.
#[verifier::rlimit(40)]
pub proof fn lemma_decides_are_certified<M: Membership>(
    membership: &M,
    own_key: M::SignatureKey,
    state: ConsensusModel<M::VoteTokenType>,
    input: Input<M::VoteTokenType>,
)
    requires
        state_is_checked(membership, state),
    ensures
        state_is_checked(membership, state.next(membership, own_key, input).state),
        decides_are_certified(membership, state.next(membership, own_key, input).actions),
        timeouts_hold_quorums(membership, state.next(membership, own_key, input).actions),
{
    match input {
        Input::Enter { view_number, block } => {
            let floor = if view_number > 0 {
                (view_number - 1) as u64
            } else {
                0
            };
            let after = state.next(membership, own_key, input).state;
            if !(state.halted || view_number < state.current_view) {
                lemma_kept_accumulators_were_there(state.accumulators, floor);
                assert forall|i: int| 0 <= i < after.accumulators.len() implies gathers_valid_votes(
                    membership,
                    #[trigger] after.accumulators[i],
                ) by {
                    assert(is_among(state.accumulators, after.accumulators[i]));
                    let k = choose|k: int|
                        0 <= k < state.accumulators.len() && #[trigger] state.accumulators[k]
                            == after.accumulators[i];
                    assert(gathers_valid_votes(membership, state.accumulators[k]));
                }
            }
        },
        Input::Proposal { leaf, justify_qc_commitment } => {
            if !state.halted && state.admits(membership, leaf) {
                if !has_leaf(state.leaves, leaf.parent_commitment) {
                    let after = state.next(membership, own_key, input).state;
                    assert forall|i: int| 0 <= i < after.pending.len() implies carries_certificate(
                        membership,
                        #[trigger] after.pending[i],
                    ) by {
                        if i < state.pending.len() {
                            assert(after.pending[i] == state.pending[i]);
                        }
                    }
                } else if state.links(leaf) {
                    let grown = ConsensusModel { leaves: state.leaves.push(leaf), ..state };
                    lemma_push_keeps_leaves(state.leaves, leaf);
                    assert forall|i: int|
                        0 <= i < grown.leaves.len() && (#[trigger] grown.leaves[i]).view_number
                            > grown.anchor_view implies carries_certificate(membership, grown.leaves[i]) by {
                        if i < state.leaves.len() {
                            assert(grown.leaves[i] == state.leaves[i]);
                        }
                    }
                    lemma_adoption_is_checked(membership, grown, leaf.justify_qc);
                    let settled = grown.adopted(leaf.justify_qc);
                    let locked = settled.state.relocked(leaf.justify_qc.commitment);
                    lemma_relock(settled.state, leaf.justify_qc.commitment);
                    assert(state_is_checked(membership, locked));
                    lemma_certificate_is_certified(membership, locked, settled.best);
                    lemma_certificate_keeps_views(locked, settled.best);
                    let advanced = locked.with_certificate(settled.best);
                    let outcome = state.next(membership, own_key, input);
                    assert forall|i: int| 0 <= i < outcome.actions.len() implies !(
                    #[trigger] outcome.actions[i] is BroadcastTimeoutCertificate) by {
                        if i < advanced.actions.len() {
                            assert(outcome.actions[i] == advanced.actions[i]);
                        }
                    }
                    assert forall|i: int|
                        0 <= i < outcome.actions.len() implies (#[trigger] outcome.actions[i] matches ActionRecord::Emit {
                        event: EventRecord::Decide { leaf_chain, qc, .. },
                    } ==> decide_is_certified(membership, leaf_chain, qc)) by {
                        if i < advanced.actions.len() {
                            assert(outcome.actions[i] == advanced.actions[i]);
                        }
                    }
                }
            }
        },
        Input::Vote { vote } => {
            if state.gathers(membership, own_key, vote) {
                let at = crate::consensus::accumulator_index(state.accumulators, vote.view_number, vote.data, 0);
                let found = at < state.accumulators.len();
                lemma_accumulator_index(state.accumulators, vote.view_number, vote.data, 0);
                let accumulator = if found {
                    state.accumulators[at]
                } else {
                    crate::vote::AccumulatorState {
                        data: vote.data,
                        view_number: vote.view_number,
                        threshold: membership.success_threshold(),
                        records: Seq::empty(),
                    }
                };
                let rest = if found {
                    state.accumulators.remove(at)
                } else {
                    state.accumulators
                };
                assert forall|i: int| 0 <= i < rest.len() implies gathers_valid_votes(
                    membership,
                    #[trigger] rest[i],
                ) by {
                    if found && i >= at {
                        assert(rest[i] == state.accumulators[i + 1]);
                    } else {
                        assert(rest[i] == state.accumulators[i]);
                    }
                }
                lemma_accumulated_votes_are_valid(
                    membership,
                    vote.key,
                    vote.signature,
                    vote.data,
                    vote.token,
                    vote.view_number,
                    accumulator,
                );
                match crate::exchange::accumulated(
                    membership,
                    vote.key,
                    vote.signature,
                    vote.data,
                    vote.token,
                    vote.view_number,
                    accumulator,
                ) {
                    either::Either::Left(next) => {
                        let after = state.next(membership, own_key, input).state;
                        assert forall|i: int| 0 <= i < after.accumulators.len() implies gathers_valid_votes(
                            membership,
                            #[trigger] after.accumulators[i],
                        ) by {
                            if i < rest.len() {
                                assert(after.accumulators[i] == rest[i]);
                            }
                        }
                    },
                    either::Either::Right(records) => {
                        let emptied = ConsensusModel { accumulators: rest, ..state };
                        assert(state_is_checked(membership, emptied));
                        if vote.data is Yes {
                            let qc = CertificateRecord {
                                view_number: vote.view_number,
                                commitment: vote.data->Yes_0,
                                records,
                                genesis: false,
                            };
                            lemma_certificate_is_certified(membership, emptied, qc);
                            lemma_certificate_keeps_views(emptied, qc);
                        }
                    },
                }
            }
        },
        Input::Available { accepted, view_number, block_commitment } => {},
        Input::Timer => {},
        Input::Failure { kind } => {},
    }
}

/// The place that the search for an accumulator gives is a place in the
/// list or the length of the list.
pub proof fn lemma_accumulator_index<T: VoteToken>(
    accumulators: Seq<crate::vote::AccumulatorState<T>>,
    view_number: ViewNumber,
    data: VoteData,
    start: int,
)
    requires
        0 <= start,
    ensures
        0 <= crate::consensus::accumulator_index(accumulators, view_number, data, start) <= accumulators.len(),
    decreases accumulators.len() - start,
{
    if start < accumulators.len() && !(accumulators[start].view_number == view_number
        && accumulators[start].data == data) {
        lemma_accumulator_index(accumulators, view_number, data, start + 1);
    }
}

/// Over any run of a node that starts in a checked state, the leaves that
/// the node decides are certified, and the timeout certificates that it
/// sends hold a quorum.
pub proof fn lemma_run_decides_certified_leaves<M: Membership>(
    membership: &M,
    own_key: M::SignatureKey,
    state: ConsensusModel<M::VoteTokenType>,
    inputs: Seq<Input<M::VoteTokenType>>,
)
    requires
        state_is_checked(membership, state),
    ensures
        state_is_checked(membership, state.run(membership, own_key, inputs).state),
        decides_are_certified(membership, state.run(membership, own_key, inputs).actions),
        timeouts_hold_quorums(membership, state.run(membership, own_key, inputs).actions),
    decreases inputs.len(),
{
    if inputs.len() > 0 {
        let before = state.run(membership, own_key, inputs.drop_last());
        lemma_run_decides_certified_leaves(membership, own_key, state, inputs.drop_last());
        lemma_decides_are_certified(membership, own_key, before.state, inputs.last());
        let step = before.state.next(membership, own_key, inputs.last());
        let all = before.actions + step.actions;
        assert forall|i: int| 0 <= i < all.len() implies (#[trigger] all[i] matches ActionRecord::Emit {
            event: EventRecord::Decide { leaf_chain, qc, .. },
        } ==> decide_is_certified(membership, leaf_chain, qc)) by {
            if i < before.actions.len() {
                assert(all[i] == before.actions[i]);
            } else {
                assert(all[i] == step.actions[i - before.actions.len()]);
            }
        }
        assert forall|i: int|
            0 <= i < all.len() implies (#[trigger] all[i] matches ActionRecord::BroadcastTimeoutCertificate {
            view_number,
            records,
        } ==> quorum_of_votes(membership, records, VoteData::Timeout(view_number), view_number)) by {
            if i < before.actions.len() {
                assert(all[i] == before.actions[i]);
            } else {
                assert(all[i] == step.actions[i - before.actions.len()]);
            }
        }
    }
}

/// Whether a leaf hangs on its parent: the parent is known, the certificate
/// that the leaf carries is for the parent and of the parent's view, and
/// the parent is of a lower view than the leaf.
pub open spec fn hangs_on_parent<T>(leaves: Seq<LeafRecord<T>>, leaf: LeafRecord<T>) -> bool {
    &&& has_leaf(leaves, leaf.parent_commitment)
    &&& leaf.justify_qc.commitment == leaf.parent_commitment
    &&& leaf.justify_qc.view_number == leaf_of(leaves, leaf.parent_commitment).view_number
    &&& leaf.justify_qc.view_number < leaf.view_number
}

/// Whether the chain of a node is linked: no two leaves have the same
/// commitment, and each leaf above the anchor whose certificate is of no
/// lower view than the anchor hangs on its parent. Leaves below the anchor
/// are forgotten, so that a leaf may outlive a parent of a lower view.
pub open spec fn chain_is_linked<T>(state: ConsensusModel<T>) -> bool {
    &&& commitments_distinct(state.leaves)
    &&& forall|i: int|
        0 <= i < state.leaves.len() && (#[trigger] state.leaves[i]).view_number > state.anchor_view
            && state.leaves[i].justify_qc.view_number >= state.anchor_view ==> hangs_on_parent(
            state.leaves,
            state.leaves[i],
        )
}

/// One more leaf that hangs on its parent keeps a chain linked.
pub proof fn lemma_push_keeps_chain_linked<T: VoteToken>(state: ConsensusModel<T>, leaf: LeafRecord<T>)
    requires
        chain_is_linked(state),
        state.adoptable(leaf),
        leaf.justify_qc.commitment == leaf.parent_commitment,
    ensures
        chain_is_linked(ConsensusModel { leaves: state.leaves.push(leaf), ..state }),
{
    let grown = state.leaves.push(leaf);
    lemma_push_keeps_leaves(state.leaves, leaf);
    assert forall|i: int|
        0 <= i < grown.len() && (#[trigger] grown[i]).view_number > state.anchor_view
            && grown[i].justify_qc.view_number >= state.anchor_view implies hangs_on_parent(grown, grown[i]) by {
        if i < state.leaves.len() {
            assert(grown[i] == state.leaves[i]);
            assert(hangs_on_parent(state.leaves, state.leaves[i]));
        }
    }
}

/// Letting waiting leaves join keeps a chain linked, where each waiting
/// leaf carries a certificate for its parent.
pub proof fn lemma_adoption_keeps_chain_linked<T: VoteToken>(state: ConsensusModel<T>, best: CertificateRecord<T>)
    requires
        chain_is_linked(state),
        forall|i: int|
            0 <= i < state.pending.len() ==> (#[trigger] state.pending[i]).justify_qc.commitment
                == state.pending[i].parent_commitment,
    ensures
        chain_is_linked(state.adopted(best).state),
        forall|i: int|
            0 <= i < state.adopted(best).state.pending.len() ==> (#[trigger] state.adopted(
                best,
            ).state.pending[i]).justify_qc.commitment == state.adopted(best).state.pending[i].parent_commitment,
    decreases state.pending.len(),
{
    let at = state.first_adoptable(0);
    if 0 <= at < state.pending.len() {
        lemma_first_adoptable(state, 0);
        let leaf = state.pending[at];
        let next = ConsensusModel {
            leaves: state.leaves.push(leaf),
            pending: state.pending.remove(at),
            ..state
        };
        lemma_push_keeps_chain_linked(state, leaf);
        assert(chain_is_linked(ConsensusModel { leaves: state.leaves.push(leaf), ..state }));
        assert forall|i: int| 0 <= i < next.pending.len() implies (#[trigger] next.pending[i]).justify_qc.commitment
            == next.pending[i].parent_commitment by {
            if i < at {
                assert(next.pending[i] == state.pending[i]);
            } else {
                assert(next.pending[i] == state.pending[i + 1]);
            }
        }
        lemma_adoption_keeps_chain_linked(
            next,
            if leaf.justify_qc.view_number > best.view_number {
                leaf.justify_qc
            } else {
                best
            },
        );
    }
}

/// Learning of a certificate keeps a chain linked.
pub proof fn lemma_certificate_keeps_chain_linked<T: VoteToken>(state: ConsensusModel<T>, qc: CertificateRecord<T>)
    requires
        chain_is_linked(state),
    ensures
        chain_is_linked(state.with_certificate(qc).state),
{
    let highest = if qc.view_number > state.highest_qc.view_number {
        qc
    } else {
        state.highest_qc
    };
    let raised = (ConsensusModel { highest_qc: highest, ..state }).relocked(highest.commitment);
    let after = raised.committed(highest.commitment).state;
    match raised.decided_by(highest.commitment) {
        Some(decided) => {
            if after.leaves != raised.leaves {
                let floor = decided.view_number;
                lemma_filter_keeps_distinct(raised.leaves, floor);
                lemma_kept_leaves_were_there(raised.leaves, floor);
                assert forall|i: int|
                    0 <= i < after.leaves.len() && (#[trigger] after.leaves[i]).view_number > after.anchor_view
                        && after.leaves[i].justify_qc.view_number >= after.anchor_view implies hangs_on_parent(
                    after.leaves,
                    after.leaves[i],
                ) by {
                    let leaf = after.leaves[i];
                    assert(is_among(raised.leaves, leaf));
                    let k = choose|k: int| 0 <= k < raised.leaves.len() && #[trigger] raised.leaves[k] == leaf;
                    assert(hangs_on_parent(raised.leaves, raised.leaves[k]));
                }
            }
        },
        None => {},
    }
}

/// Whether each waiting leaf carries a certificate for its parent.
pub open spec fn waiting_leaves_are_sound<T>(state: ConsensusModel<T>) -> bool {
    forall|i: int|
        0 <= i < state.pending.len() ==> (#[trigger] state.pending[i]).justify_qc.commitment
            == state.pending[i].parent_commitment
}

/// Whatever happens to a node, its chain stays linked: each leaf above the
/// anchor hangs on a known parent, as far as the parent is not below the
/// anchor.
#[verifier::rlimit(40)]
pub proof fn lemma_chain_stays_linked<T: VoteToken, M: Membership<VoteTokenType = T>>(
    state: ConsensusModel<T>,
    membership: &M,
    own_key: M::SignatureKey,
    input: Input<T>,
)
    requires
        chain_is_linked(state),
        waiting_leaves_are_sound(state),
    ensures
        chain_is_linked(state.next(membership, own_key, input).state),
        waiting_leaves_are_sound(state.next(membership, own_key, input).state),
{
    match input {
        Input::Proposal { leaf, justify_qc_commitment } => {
            if !state.halted && state.admits(membership, leaf) {
                if !has_leaf(state.leaves, leaf.parent_commitment) {
                    let after = state.next(membership, own_key, input).state;
                    assert forall|i: int| 0 <= i < after.pending.len() implies (
                    #[trigger] after.pending[i]).justify_qc.commitment == after.pending[i].parent_commitment by {
                        if i < state.pending.len() {
                            assert(after.pending[i] == state.pending[i]);
                        }
                    }
                } else if state.links(leaf) {
                    let grown = ConsensusModel { leaves: state.leaves.push(leaf), ..state };
                    lemma_push_keeps_chain_linked(state, leaf);
                    lemma_adoption_keeps_chain_linked(grown, leaf.justify_qc);
                    let settled = grown.adopted(leaf.justify_qc);
                    let locked = settled.state.relocked(leaf.justify_qc.commitment);
                    lemma_relock(settled.state, leaf.justify_qc.commitment);
                    assert(chain_is_linked(locked));
                    assert(waiting_leaves_are_sound(locked));
                    lemma_certificate_keeps_chain_linked(locked, settled.best);
                    lemma_certificate_keeps_waiting(locked, settled.best);
                }
            }
        },
        Input::Vote { vote } => {
            if state.gathers(membership, own_key, vote) {
                assert forall|rest: ConsensusModel<T>, qc: CertificateRecord<T>|
                    chain_is_linked(rest) && waiting_leaves_are_sound(rest) implies chain_is_linked(
                    #[trigger] rest.with_certificate(qc).state,
                ) && waiting_leaves_are_sound(rest.with_certificate(qc).state) by {
                    lemma_certificate_keeps_chain_linked(rest, qc);
                    lemma_certificate_keeps_waiting(rest, qc);
                }
            }
        },
        _ => {},
    }
}

/// Learning of a certificate leaves the waiting leaves sound.
pub proof fn lemma_certificate_keeps_waiting<T: VoteToken>(state: ConsensusModel<T>, qc: CertificateRecord<T>)
    requires
        waiting_leaves_are_sound(state),
    ensures
        waiting_leaves_are_sound(state.with_certificate(qc).state),
{
    let highest = if qc.view_number > state.highest_qc.view_number {
        qc
    } else {
        state.highest_qc
    };
    let raised = (ConsensusModel { highest_qc: highest, ..state }).relocked(highest.commitment);
    let after = raised.committed(highest.commitment).state;
    match raised.decided_by(highest.commitment) {
        Some(decided) => {
            if after.pending != raised.pending {
                lemma_kept_leaves_were_there(raised.pending, decided.view_number);
                assert forall|i: int| 0 <= i < after.pending.len() implies (
                #[trigger] after.pending[i]).justify_qc.commitment == after.pending[i].parent_commitment by {
                    assert(is_among(raised.pending, after.pending[i]));
                    let k = choose|k: int|
                        0 <= k < raised.pending.len() && #[trigger] raised.pending[k] == after.pending[i];
                    assert(raised.pending[k].justify_qc.commitment == raised.pending[k].parent_commitment);
                }
            }
        },
        None => {},
    }
}

/// Whether the views and leaves that a node keeps stand in order: the
/// anchor and the locked leaf are known and of the views that the node
/// keeps for them, the lock is not below the anchor, and the node has not
/// voted or proposed in a view that is still to come.
pub open spec fn state_is_ordered<T>(state: ConsensusModel<T>) -> bool {
    &&& commitments_distinct(state.leaves)
    &&& has_leaf(state.leaves, state.anchor_leaf)
    &&& leaf_of(state.leaves, state.anchor_leaf).view_number == state.anchor_view
    &&& has_leaf(state.leaves, state.locked_leaf)
    &&& leaf_of(state.leaves, state.locked_leaf).view_number == state.locked_view
    &&& state.anchor_view <= state.locked_view
    &&& state.last_voted_view <= state.current_view
    &&& state.last_proposed_view <= state.current_view
}

/// The state of a node that starts stands in order.
pub proof fn lemma_initial_state_is_ordered<T: VoteToken>(anchor: LeafRecord<T>)
    ensures
        state_is_ordered(ConsensusModel::initial(anchor)),
        chain_is_linked(ConsensusModel::initial(anchor)),
        waiting_leaves_are_sound(ConsensusModel::initial(anchor)),
{
    let state = ConsensusModel::initial(anchor);
    assert(state.leaves[0].commitment == anchor.commitment);
    lemma_leaf_of(state.leaves, 0);
}

/// Letting waiting leaves join keeps a state in order.
pub proof fn lemma_adoption_keeps_order<T: VoteToken>(state: ConsensusModel<T>, best: CertificateRecord<T>)
    requires
        state_is_ordered(state),
    ensures
        state_is_ordered(state.adopted(best).state),
    decreases state.pending.len(),
{
    let at = state.first_adoptable(0);
    if 0 <= at < state.pending.len() {
        lemma_first_adoptable(state, 0);
        let leaf = state.pending[at];
        lemma_push_keeps_leaves(state.leaves, leaf);
        lemma_adoption_keeps_order(
            ConsensusModel { leaves: state.leaves.push(leaf), pending: state.pending.remove(at), ..state },
            if leaf.justify_qc.view_number > best.view_number {
                leaf.justify_qc
            } else {
                best
            },
        );
    }
}

/// Learning of a certificate keeps a state in order.
#[verifier::rlimit(40)]
pub proof fn lemma_certificate_keeps_order<T: VoteToken>(state: ConsensusModel<T>, qc: CertificateRecord<T>)
    requires
        state_is_ordered(state),
    ensures
        state_is_ordered(state.with_certificate(qc).state),
{
    let highest = if qc.view_number > state.highest_qc.view_number {
        qc
    } else {
        state.highest_qc
    };
    let raised = ConsensusModel { highest_qc: highest, ..state };
    let tip = highest.commitment;
    let relocked = raised.relocked(tip);
    match raised.locked_by(tip) {
        Some(parent) => {
            let leaf = leaf_of(raised.leaves, tip);
            let at = choose|i: int|
                0 <= i < raised.leaves.len() && #[trigger] raised.leaves[i].commitment
                    == leaf.parent_commitment;
            lemma_leaf_of(raised.leaves, at);
            assert(state_is_ordered(relocked));
            match relocked.decided_by(tip) {
                Some(decided) => {
                    let after = relocked.committed(tip).state;
                    if after.anchor_view != relocked.anchor_view {
                        let under = choose|i: int|
                            0 <= i < relocked.leaves.len() && #[trigger] relocked.leaves[i].commitment
                                == parent.parent_commitment;
                        lemma_leaf_of(relocked.leaves, under);
                        lemma_filter_keeps_distinct(relocked.leaves, decided.view_number);
                    }
                },
                None => {},
            }
        },
        None => {},
    }
}

/// Whatever happens to a node, the views and leaves that it keeps stay in
/// order.
#[verifier::rlimit(40)]
pub proof fn lemma_state_stays_ordered<T: VoteToken, M: Membership<VoteTokenType = T>>(
    state: ConsensusModel<T>,
    membership: &M,
    own_key: M::SignatureKey,
    input: Input<T>,
)
    requires
        state_is_ordered(state),
    ensures
        state_is_ordered(state.next(membership, own_key, input).state),
{
    match input {
        Input::Proposal { leaf, justify_qc_commitment } => {
            if !state.halted && state.admits(membership, leaf) && has_leaf(
                state.leaves,
                leaf.parent_commitment,
            ) && state.links(leaf) {
                let grown = ConsensusModel { leaves: state.leaves.push(leaf), ..state };
                lemma_push_keeps_leaves(state.leaves, leaf);
                lemma_adoption_keeps_order(grown, leaf.justify_qc);
                lemma_adoption_keeps_views(grown, leaf.justify_qc);
                let settled = grown.adopted(leaf.justify_qc);
                let locked = settled.state.relocked(leaf.justify_qc.commitment);
                lemma_relock(settled.state, leaf.justify_qc.commitment);
                assert(state_is_ordered(locked));
                lemma_certificate_keeps_order(locked, settled.best);
                lemma_certificate_keeps_views(locked, settled.best);
            }
        },
        Input::Vote { vote } => {
            if state.gathers(membership, own_key, vote) {
                assert forall|rest: ConsensusModel<T>, qc: CertificateRecord<T>|
                    state_is_ordered(rest) implies state_is_ordered(
                    #[trigger] rest.with_certificate(qc).state,
                ) by {
                    lemma_certificate_keeps_order(rest, qc);
                }
            }
        },
        _ => {},
    }
}

} // verus!
