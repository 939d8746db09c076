//! The state machine of one node: what it knows of the chain, which view it
//! is in, what it has voted for, and what it does when something happens.
//!
//! A handler takes what happened, changes the state, and hands back what is
//! to be done: timers to start, votes to cast, leaves to propose, and events
//! for the client. Handlers never wait; whoever runs the node performs the
//! actions and comes back with the next happening.

use vstd::prelude::*;
use either::Either;
use crate::certificate::{CertificateRecord, DACertificate, QuorumCertificate, SignedCertificate, TimeoutCertificate, VoteRecord};
use crate::chain::{has_leaf, leaf_of, leaves_from, lineage, lineage_end, link_of, Chain, Link};
use crate::data::{Commitment, Leaf, LeafRecord, ValidatingProposal, ViewNumber, VoteData};
use crate::election::{Checked, ElectionError, Membership, VoteToken};
use crate::exchange::{accumulated, certificate_accepted, signed_by, valid_vote, CommitteeExchange, ConsensusExchange, QuorumExchange, QuorumExchangeType};
use crate::message::ConsensusMessage;
use crate::signature_key::{EncodedPublicKey, EncodedSignature, SignatureKey};
use crate::vote::{AccumulatorState, QuorumVote, VoteAccumulator};

verus! {

/// What can go wrong at a node.
#[derive(Clone, Copy, Debug, PartialEq, Eq, Structural)]
pub enum ConsensusError {
    /// The election could not answer. The node goes on.
    ElectionError(ElectionError),
    /// A vote came with a key that does not read or a signature that does
    /// not verify. The vote is left out.
    InvalidSignature,
    /// A vote came with a token that the election does not accept. The vote
    /// is left out.
    InvalidToken,
    /// A leaf came whose parent is not known. The leaf is left out.
    ChainGap,
    /// A leaf is to be decided that does not extend what was decided before.
    /// The node halts.
    SafetyViolationDetected,
    /// The network gave up on a message. The view times out in due course.
    NetworkTransient,
    /// The storage failed. The node halts.
    StorageFailure,
}

/// What a node tells its client.
#[derive(Debug)]
pub enum Event<T> {
    /// Leaves were decided: the newest first, down to the one above the
    /// leaf that was decided last. More than one leaf means that the node
    /// caught up.
    Decide {
        /// The decided leaves, newest first. There is at least one.
        leaf_chain: Vec<Leaf<T>>,
        /// The certificate of the newest of them.
        qc: QuorumCertificate<T>,
        /// The size of the block of the newest of them.
        block_size: u64,
    },
    /// The view ended at this node without a proposal that it could vote on.
    ReplicaViewTimeout { view_number: ViewNumber },
    /// The view ended at this node, which leads the next view, without a certificate.
    NextLeaderViewTimeout { view_number: ViewNumber },
    /// Something went wrong.
    Error { kind: ConsensusError },
}

/// The model of an [`Event`].
pub ghost enum EventRecord<T> {
    Decide { leaf_chain: Seq<LeafRecord<T>>, qc: CertificateRecord<T>, block_size: u64 },
    ReplicaViewTimeout { view_number: ViewNumber },
    NextLeaderViewTimeout { view_number: ViewNumber },
    Error { kind: ConsensusError },
}

impl<T> View for Event<T> {
    type V = EventRecord<T>;

    open spec fn view(&self) -> EventRecord<T> {
        match self {
            Event::Decide { leaf_chain, qc, block_size } => EventRecord::Decide {
                leaf_chain: Seq::new(leaf_chain@.len(), |i: int| leaf_chain@[i]@),
                qc: qc@,
                block_size: *block_size,
            },
            Event::ReplicaViewTimeout { view_number } => EventRecord::ReplicaViewTimeout {
                view_number: *view_number,
            },
            Event::NextLeaderViewTimeout { view_number } => EventRecord::NextLeaderViewTimeout {
                view_number: *view_number,
            },
            Event::Error { kind } => EventRecord::Error { kind: *kind },
        }
    }
}

/// A block to propose: its commitment and its size.
#[derive(Clone, Copy, Debug, PartialEq, Eq)]
pub struct BlockInfo {
    pub commitment: Commitment,
    pub size: u64,
}

/// What is to be done after a handler has run.
#[derive(Debug)]
pub enum Action<T> {
    /// Stop the timer that runs and start the timer of this view.
    StartTimer { view_number: ViewNumber },
    /// Propose a leaf with this content to the quorum: make its commitment,
    /// sign it, and send it to all.
    Propose {
        view_number: ViewNumber,
        parent_commitment: Commitment,
        justify_qc: QuorumCertificate<T>,
        block: BlockInfo,
    },
    /// Cast this vote on a leaf and send it to `recipient`, the leader of the next view.
    Vote {
        recipient: EncodedPublicKey,
        data: VoteData,
        view_number: ViewNumber,
        justify_qc_commitment: Commitment,
    },
    /// Cast the vote that this view timed out and send it to `recipient`,
    /// the leader of the next view.
    TimeoutVote { recipient: EncodedPublicKey, view_number: ViewNumber, justify_qc: QuorumCertificate<T> },
    /// Send this certificate to all.
    BroadcastTimeoutCertificate { certificate: TimeoutCertificate<T> },
    /// Tell the client.
    Emit { event: Event<T> },
}

/// The model of an [`Action`].
pub ghost enum ActionRecord<T> {
    StartTimer { view_number: ViewNumber },
    Propose {
        view_number: ViewNumber,
        parent_commitment: Commitment,
        justify_qc: CertificateRecord<T>,
        block: BlockInfo,
    },
    Vote { recipient: Seq<u8>, data: VoteData, view_number: ViewNumber, justify_qc_commitment: Commitment },
    TimeoutVote { recipient: Seq<u8>, view_number: ViewNumber, justify_qc: CertificateRecord<T> },
    BroadcastTimeoutCertificate { view_number: ViewNumber, records: Seq<VoteRecord<T>> },
    Emit { event: EventRecord<T> },
}

impl<T> View for Action<T> {
    type V = ActionRecord<T>;

    open spec fn view(&self) -> ActionRecord<T> {
        match self {
            Action::StartTimer { view_number } => ActionRecord::StartTimer { view_number: *view_number },
            Action::Propose { view_number, parent_commitment, justify_qc, block } => ActionRecord::Propose {
                view_number: *view_number,
                parent_commitment: *parent_commitment,
                justify_qc: justify_qc@,
                block: *block,
            },
            Action::Vote { recipient, data, view_number, justify_qc_commitment } => ActionRecord::Vote {
                recipient: recipient@,
                data: *data,
                view_number: *view_number,
                justify_qc_commitment: *justify_qc_commitment,
            },
            Action::TimeoutVote { recipient, view_number, justify_qc } => ActionRecord::TimeoutVote {
                recipient: recipient@,
                view_number: *view_number,
                justify_qc: justify_qc@,
            },
            Action::BroadcastTimeoutCertificate { certificate } => ActionRecord::BroadcastTimeoutCertificate {
                view_number: certificate.view_number,
                records: certificate.signatures@,
            },
            Action::Emit { event } => ActionRecord::Emit { event: event@ },
        }
    }
}

/// The models of a list of actions.
pub open spec fn action_records<T>(actions: Seq<Action<T>>) -> Seq<ActionRecord<T>> {
    Seq::new(actions.len(), |i: int| actions[i]@)
}

/// A block that the data-availability committee has certified in a view.
#[derive(Clone, Copy, Debug, PartialEq, Eq)]
pub struct AvailableBlock {
    pub view_number: ViewNumber,
    pub block_commitment: Commitment,
}

/// The block that is known to be available in a view, if one is: the one
/// recorded last.
pub open spec fn available_in(blocks: Seq<AvailableBlock>, view_number: ViewNumber) -> Option<Commitment>
    decreases blocks.len(),
{
    if blocks.len() == 0 {
        None
    } else if blocks.last().view_number == view_number {
        Some(blocks.last().block_commitment)
    } else {
        available_in(blocks.drop_last(), view_number)
    }
}

/// The place of the first accumulator that gathers votes on `data` in
/// `view_number`, at or after `start`; the length of the list if there is none.
pub open spec fn accumulator_index<T: VoteToken>(
    accumulators: Seq<AccumulatorState<T>>,
    view_number: ViewNumber,
    data: VoteData,
    start: int,
) -> int
    decreases accumulators.len() - start,
{
    if start < 0 || start >= accumulators.len() {
        accumulators.len() as int
    } else if accumulators[start].view_number == view_number && accumulators[start].data == data {
        start
    } else {
        accumulator_index(accumulators, view_number, data, start + 1)
    }
}

/// The blocks of a view no lower than `floor`, in the order they had.
pub open spec fn available_from(blocks: Seq<AvailableBlock>, floor: ViewNumber) -> Seq<AvailableBlock> {
    blocks.filter(|b: AvailableBlock| b.view_number >= floor)
}

/// The accumulators of a view no lower than `floor`, in the order they had.
pub open spec fn accumulators_from<T: VoteToken>(accumulators: Seq<AccumulatorState<T>>, floor: ViewNumber) -> Seq<
    AccumulatorState<T>,
> {
    accumulators.filter(|a: AccumulatorState<T>| a.view_number >= floor)
}

/// What is wrong with a vote, if anything: the key does not read or the
/// signature does not verify under it; or the election does not find the
/// token valid for the voter in the view, or cannot say.
pub open spec fn vote_defect<M: Membership>(membership: &M, vote: CastVote<M::VoteTokenType>) -> Option<
    ConsensusError,
> {
    match M::SignatureKey::decoding(vote.key) {
        None => Some(ConsensusError::InvalidSignature),
        Some(key) => {
            if !key.accepts(vote.signature, vote.data.encoding()) {
                Some(ConsensusError::InvalidSignature)
            } else {
                match membership.validated_token(vote.view_number, key, Checked::Unchecked(vote.token)) {
                    Ok(Checked::Valid(_)) => None,
                    Ok(_) => Some(ConsensusError::InvalidToken),
                    Err(error) => Some(ConsensusError::ElectionError(error)),
                }
            }
        },
    }
}

/// A vote counts just when nothing is wrong with it.
pub proof fn lemma_vote_defect<M: Membership>(membership: &M, vote: CastVote<M::VoteTokenType>)
    ensures
        vote_defect(membership, vote) is None == valid_vote(
            membership,
            vote.key,
            vote.signature,
            vote.data,
            vote.view_number,
            Checked::Unchecked(vote.token),
        ),
{
}

/// Finds what is wrong with a vote. See [`vote_defect`].
pub fn diagnose_vote<M: Membership>(
    membership: &M,
    encoded_key: &EncodedPublicKey,
    encoded_signature: &EncodedSignature,
    data: VoteData,
    view_number: ViewNumber,
    vote_token: M::VoteTokenType,
) -> (defect: Option<ConsensusError>)
    ensures
        defect == vote_defect(
            membership,
            CastVote {
                key: encoded_key@,
                signature: encoded_signature@,
                data,
                view_number,
                token: vote_token,
            },
        ),
{
    match M::SignatureKey::from_bytes(encoded_key) {
        None => Some(ConsensusError::InvalidSignature),
        Some(key) => {
            let bytes = data.as_bytes();
            if !key.validate(encoded_signature, bytes.as_slice()) {
                Some(ConsensusError::InvalidSignature)
            } else {
                match membership.validate_vote_token(view_number, key, Checked::Unchecked(vote_token)) {
                    Ok(Checked::Valid(_)) => None,
                    Ok(_) => Some(ConsensusError::InvalidToken),
                    Err(error) => Some(ConsensusError::ElectionError(error)),
                }
            }
        },
    }
}

/// A vote as the next leader reads it: who cast it, on what, in which view,
/// with which token.
pub ghost struct CastVote<T> {
    pub key: Seq<u8>,
    pub signature: Seq<u8>,
    pub data: VoteData,
    pub view_number: ViewNumber,
    pub token: T,
}

/// What a vote of the quorum says.
pub open spec fn cast_of<T>(vote: QuorumVote<T>) -> CastVote<T> {
    match vote {
        QuorumVote::Yes(v) => CastVote {
            key: v.signature.0@,
            signature: v.signature.1@,
            data: VoteData::Yes(v.leaf_commitment),
            view_number: v.current_view,
            token: v.vote_token,
        },
        QuorumVote::No(v) => CastVote {
            key: v.signature.0@,
            signature: v.signature.1@,
            data: VoteData::No(v.leaf_commitment),
            view_number: v.current_view,
            token: v.vote_token,
        },
        QuorumVote::Timeout(v) => CastVote {
            key: v.signature.0@,
            signature: v.signature.1@,
            data: VoteData::Timeout(v.current_view),
            view_number: v.current_view,
            token: v.vote_token,
        },
    }
}

/// The model of the state of a node.
pub ghost struct ConsensusModel<T> {
    /// Set when the node has halted. A halted node does nothing.
    pub halted: bool,
    /// The view that the node is in.
    pub current_view: ViewNumber,
    /// The last view that the node proposed in.
    pub last_proposed_view: ViewNumber,
    /// The last view that the node voted in.
    pub last_voted_view: ViewNumber,
    /// The view of the leaf that was decided last.
    pub anchor_view: ViewNumber,
    /// The leaf that was decided last.
    pub anchor_leaf: Commitment,
    /// The view of the leaf that the node is locked on.
    pub locked_view: ViewNumber,
    /// The leaf that the node is locked on.
    pub locked_leaf: Commitment,
    /// The certificate of the highest view that the node knows.
    pub highest_qc: CertificateRecord<T>,
    /// The leaves that the node knows.
    pub leaves: Seq<LeafRecord<T>>,
    /// The leaves that wait for their parents. There are no more than
    /// [`PENDING_LIMIT`], and no two have the same commitment.
    pub pending: Seq<LeafRecord<T>>,
    /// The blocks that are known to be available.
    pub available: Seq<AvailableBlock>,
    /// The votes that the node gathers as the leader of a next view.
    pub accumulators: Seq<AccumulatorState<T>>,
}

/// The number of leaves that a node keeps waiting for their parents.
pub const PENDING_LIMIT: usize = 64;

/// A state in which the waiting leaves that fit have joined the chain, and
/// the highest certificate among those that they carry and one more.
pub ghost struct Adoption<T> {
    pub state: ConsensusModel<T>,
    pub best: CertificateRecord<T>,
}

/// A state and what is to be done on the way to it.
pub ghost struct Outcome<T> {
    pub state: ConsensusModel<T>,
    pub actions: Seq<ActionRecord<T>>,
}

impl<T: VoteToken> ConsensusModel<T> {
    /// The state and nothing to do.
    pub open spec fn idle(self) -> Outcome<T> {
        Outcome { state: self, actions: Seq::empty() }
    }

    /// The leaf that a certificate for `tip` locks: the parent of the tip,
    /// if it is of the view just before and certified by the certificate
    /// that the tip carries.
    pub open spec fn locked_by(self, tip: Commitment) -> Option<LeafRecord<T>> {
        if has_leaf(self.leaves, tip) && has_leaf(self.leaves, leaf_of(self.leaves, tip).parent_commitment) {
            let leaf = leaf_of(self.leaves, tip);
            let parent = leaf_of(self.leaves, leaf.parent_commitment);
            if leaf.view_number == parent.view_number + 1 && leaf.justify_qc.commitment
                == parent.commitment && leaf.justify_qc.view_number == parent.view_number {
                Some(parent)
            } else {
                None
            }
        } else {
            None
        }
    }

    /// The leaf that a certificate for `tip` decides: the grandparent of the
    /// tip, if tip, parent and grandparent are of three views in a row and
    /// each is certified by the certificate that the next one carries.
    pub open spec fn decided_by(self, tip: Commitment) -> Option<LeafRecord<T>> {
        match self.locked_by(tip) {
            Some(parent) => {
                if has_leaf(self.leaves, parent.parent_commitment) {
                    let grandparent = leaf_of(self.leaves, parent.parent_commitment);
                    if parent.view_number == grandparent.view_number + 1 && parent.justify_qc.commitment
                        == grandparent.commitment && parent.justify_qc.view_number
                        == grandparent.view_number {
                        Some(grandparent)
                    } else {
                        None
                    }
                } else {
                    None
                }
            },
            None => None,
        }
    }

    /// The state locked on what a certificate for `tip` locks, if that is
    /// of a higher view than the lock that is held.
    pub open spec fn relocked(self, tip: Commitment) -> ConsensusModel<T> {
        match self.locked_by(tip) {
            Some(parent) => {
                if parent.view_number > self.locked_view {
                    ConsensusModel { locked_view: parent.view_number, locked_leaf: parent.commitment, ..self }
                } else {
                    self
                }
            },
            None => self,
        }
    }

    /// What becomes of the state when a certificate for `tip` decides a leaf.
    ///
    /// Nothing, if no leaf is decided or the leaf is of no higher view than
    /// the anchor. Else the walk from the leaf down to the view of the
    /// anchor is looked at. If it ends at the anchor, the leaves on it are
    /// decided, the leaf becomes the anchor, and the leaves and accumulators
    /// of lower views are forgotten. If it ends at another known leaf, the
    /// leaf contradicts what was decided, and the node halts. If it ends at
    /// an unknown leaf, nothing is decided.
    pub open spec fn committed(self, tip: Commitment) -> Outcome<T> {
        match self.decided_by(tip) {
            Some(decided) => {
                if decided.view_number <= self.anchor_view {
                    self.idle()
                } else {
                    let end = lineage_end(self.leaves, decided.commitment, self.anchor_view);
                    if end == self.anchor_leaf {
                        Outcome {
                            state: ConsensusModel {
                                anchor_view: decided.view_number,
                                anchor_leaf: decided.commitment,
                                leaves: leaves_from(self.leaves, decided.view_number),
                                pending: leaves_from(self.pending, decided.view_number),
                                available: available_from(self.available, decided.view_number),
                                accumulators: accumulators_from(self.accumulators, decided.view_number),
                                ..self
                            },
                            actions: seq![
                                ActionRecord::Emit {
                                    event: EventRecord::Decide {
                                        leaf_chain: lineage(self.leaves, decided.commitment, self.anchor_view),
                                        qc: self.locked_by(tip).unwrap().justify_qc,
                                        block_size: decided.block_size,
                                    },
                                },
                            ],
                        }
                    } else if has_leaf(self.leaves, end) && leaf_of(self.leaves, end).view_number
                        <= self.anchor_view {
                        Outcome {
                            state: ConsensusModel { halted: true, ..self },
                            actions: seq![
                                ActionRecord::Emit {
                                    event: EventRecord::Error { kind: ConsensusError::SafetyViolationDetected },
                                },
                            ],
                        }
                    } else {
                        Outcome {
                            state: self,
                            actions: seq![
                                ActionRecord::Emit { event: EventRecord::Error { kind: ConsensusError::ChainGap } },
                            ],
                        }
                    }
                }
            },
            None => self.idle(),
        }
    }

    /// The state of a node that starts at `anchor`: it knows that leaf
    /// alone, holds it decided and locked, and knows no certificate but the
    /// one that starts the chain there.
    pub open spec fn initial(anchor: LeafRecord<T>) -> ConsensusModel<T> {
        ConsensusModel {
            halted: false,
            current_view: anchor.view_number,
            last_proposed_view: anchor.view_number,
            last_voted_view: anchor.view_number,
            anchor_view: anchor.view_number,
            anchor_leaf: anchor.commitment,
            locked_view: anchor.view_number,
            locked_leaf: anchor.commitment,
            highest_qc: CertificateRecord {
                view_number: anchor.view_number,
                commitment: anchor.commitment,
                records: Seq::empty(),
                genesis: true,
            },
            leaves: seq![anchor],
            pending: Seq::empty(),
            available: Seq::empty(),
            accumulators: Seq::empty(),
        }
    }

    /// The block that a proposal on top of the highest certificate carries
    /// where no new block is at hand: the block of the certified leaf.
    pub open spec fn block_to_repeat(self) -> Option<BlockInfo> {
        if has_leaf(self.leaves, self.highest_qc.commitment) {
            let leaf = leaf_of(self.leaves, self.highest_qc.commitment);
            Some(BlockInfo { commitment: leaf.block_commitment, size: leaf.block_size })
        } else {
            None
        }
    }

    /// What becomes of the state when the node enters a view.
    ///
    /// A halted node, and a view below the one the node is in, change
    /// nothing. Else the view becomes current, the accumulators of views
    /// before the one just left are forgotten, and the timer of the view is
    /// started. A node that leads the view and has not proposed in it or
    /// later proposes a leaf on top of the highest certificate it knows,
    /// with `block`, or else with the block of the certified leaf.
    pub open spec fn entered(self, view_number: ViewNumber, block: Option<BlockInfo>, leads: bool) -> Outcome<T> {
        if self.halted || view_number < self.current_view {
            self.idle()
        } else {
            let floor = if view_number > 0 {
                (view_number - 1) as u64
            } else {
                0
            };
            let state = ConsensusModel {
                current_view: view_number,
                accumulators: accumulators_from(self.accumulators, floor),
                ..self
            };
            let timer = seq![ActionRecord::<T>::StartTimer { view_number }];
            let carried = if block is Some {
                block
            } else {
                self.block_to_repeat()
            };
            if leads && view_number > self.last_proposed_view && view_number > self.highest_qc.view_number
                && carried is Some {
                Outcome {
                    state: ConsensusModel { last_proposed_view: view_number, ..state },
                    actions: timer.push(
                        ActionRecord::Propose {
                            view_number,
                            parent_commitment: self.highest_qc.commitment,
                            justify_qc: self.highest_qc,
                            block: carried.unwrap(),
                        },
                    ),
                }
            } else {
                Outcome { state, actions: timer }
            }
        }
    }

    /// Whether a proposed leaf is looked at: it is of a higher view than the
    /// anchor, it is not known yet, its certificate is for its parent, and
    /// the certificate is accepted.
    pub open spec fn admits<M: Membership<VoteTokenType = T>>(self, membership: &M, leaf: LeafRecord<T>) -> bool {
        &&& leaf.view_number > self.anchor_view
        &&& !has_leaf(self.leaves, leaf.commitment)
        &&& leaf.justify_qc.commitment == leaf.parent_commitment
        &&& certificate_accepted(membership, leaf.justify_qc, VoteData::Yes(leaf.parent_commitment))
    }

    /// Whether a proposed leaf whose parent is known fits on it: the parent
    /// is of the view of the certificate and of a lower view than the leaf.
    pub open spec fn links(self, leaf: LeafRecord<T>) -> bool {
        let parent = leaf_of(self.leaves, leaf.parent_commitment);
        leaf.justify_qc.view_number == parent.view_number && parent.view_number < leaf.view_number
    }

    /// Whether a waiting leaf can join the chain: it is not in it, its
    /// parent is, and it fits on the parent.
    pub open spec fn adoptable(self, leaf: LeafRecord<T>) -> bool {
        &&& !has_leaf(self.leaves, leaf.commitment)
        &&& has_leaf(self.leaves, leaf.parent_commitment)
        &&& self.links(leaf)
    }

    /// The place of the first waiting leaf, at or after `start`, that can
    /// join the chain; the number of waiting leaves if there is none.
    pub open spec fn first_adoptable(self, start: int) -> int
        decreases self.pending.len() - start,
    {
        if start < 0 || start >= self.pending.len() {
            self.pending.len() as int
        } else if self.adoptable(self.pending[start]) {
            start
        } else {
            self.first_adoptable(start + 1)
        }
    }

    /// The state after the waiting leaves that can join the chain have
    /// joined it, the first that can each time, until none can; and the
    /// highest certificate among `best` and those that the leaves carry.
    pub open spec fn adopted(self, best: CertificateRecord<T>) -> Adoption<T>
        decreases self.pending.len(),
    {
        let at = self.first_adoptable(0);
        if 0 <= at < self.pending.len() {
            let leaf = self.pending[at];
            (ConsensusModel {
                leaves: self.leaves.push(leaf),
                pending: self.pending.remove(at),
                ..self
            }).adopted(
                if leaf.justify_qc.view_number > best.view_number {
                    leaf.justify_qc
                } else {
                    best
                },
            )
        } else {
            Adoption { state: self, best }
        }
    }

    /// The locking rule. A leaf is safe to accept if its certificate is of a
    /// higher view than the lock, or is of no lower view and the leaf
    /// extends the locked leaf.
    pub open spec fn safe_to_accept(self, leaf: LeafRecord<T>) -> bool {
        ||| leaf.justify_qc.view_number > self.locked_view
        ||| leaf.justify_qc.view_number >= self.locked_view && lineage_end(
            self.leaves,
            leaf.parent_commitment,
            self.locked_view,
        ) == self.locked_leaf
    }

    /// The vote on a leaf: yes if the leaf is safe to accept and its block is
    /// known to be available in its view, else no.
    pub open spec fn vote_on(self, leaf: LeafRecord<T>) -> VoteData {
        if self.safe_to_accept(leaf) && available_in(self.available, leaf.view_number) == Some(
            leaf.block_commitment,
        ) {
            VoteData::Yes(leaf.commitment)
        } else {
            VoteData::No(leaf.commitment)
        }
    }

    /// What becomes of the state when a proposal comes in.
    ///
    /// A halted node, and a leaf that is not looked at or does not fit on its
    /// parent, change nothing. A leaf whose parent is not known is reported
    /// as a gap; it waits for the parent if fewer than [`PENDING_LIMIT`]
    /// leaves wait and it is not among them, and is dropped else. Else the
    /// leaf joins the chain, and so do the waiting leaves that now fit. The
    /// lock moves to what the certificate of the leaf locks; the node then
    /// learns of the highest certificate that these leaves carry, and
    /// decides what the highest certificate it knows decides now.
    /// If the leaf is of the current view and the node has not voted in that
    /// view or later, it votes, and remembers the view as the last it voted
    /// in. The vote goes to the leader of the next view.
    pub open spec fn with_proposal<M: Membership<VoteTokenType = T>>(
        self,
        membership: &M,
        leaf: LeafRecord<T>,
        justify_qc_commitment: Commitment,
    ) -> Outcome<T> {
        if self.halted || !self.admits(membership, leaf) {
            self.idle()
        } else if !has_leaf(self.leaves, leaf.parent_commitment) {
            Outcome {
                state: if self.pending.len() < PENDING_LIMIT && !has_leaf(self.pending, leaf.commitment) {
                    ConsensusModel { pending: self.pending.push(leaf), ..self }
                } else {
                    self
                },
                actions: seq![
                    ActionRecord::Emit { event: EventRecord::Error { kind: ConsensusError::ChainGap } },
                ],
            }
        } else if !self.links(leaf) {
            self.idle()
        } else {
            let grown = ConsensusModel { leaves: self.leaves.push(leaf), ..self };
            let settled = grown.adopted(leaf.justify_qc);
            let advanced = settled.state.relocked(leaf.justify_qc.commitment).with_certificate(settled.best);
            if advanced.state.halted || leaf.view_number != self.current_view || leaf.view_number
                <= self.last_voted_view {
                advanced
            } else {
                let voted = ConsensusModel { last_voted_view: leaf.view_number, ..advanced.state };
                if leaf.view_number == u64::MAX {
                    Outcome { state: voted, actions: advanced.actions }
                } else {
                    Outcome {
                        state: voted,
                        actions: advanced.actions.push(
                            ActionRecord::Vote {
                                recipient: membership.leader((leaf.view_number + 1) as u64).encoding(),
                                data: self.vote_on(leaf),
                                view_number: leaf.view_number,
                                justify_qc_commitment,
                            },
                        ),
                    }
                }
            }
        }
    }

    /// Whether a vote is gathered: the node leads the view after the vote's,
    /// the vote accepts a leaf or says that its own view timed out, it is of
    /// no lower view than the anchor, and, if it accepts a leaf, of a higher
    /// view than the highest certificate that the node knows.
    pub open spec fn gathers<M: Membership<VoteTokenType = T>>(
        self,
        membership: &M,
        own_key: M::SignatureKey,
        vote: CastVote<T>,
    ) -> bool {
        &&& !self.halted
        &&& vote.view_number < u64::MAX
        &&& membership.leader((vote.view_number + 1) as u64) == own_key
        &&& vote.data is Yes || vote.data == VoteData::Timeout(vote.view_number)
        &&& vote.view_number >= self.anchor_view
        &&& vote.data is Yes ==> vote.view_number > self.highest_qc.view_number
    }

    /// What becomes of the state when a vote comes in.
    ///
    /// A vote that is not gathered changes nothing. Else the vote goes to
    /// the accumulator for what it is about in its view, or to a new one
    /// with the threshold of the membership. A vote with something wrong
    /// with it is left out, and the client is told what is wrong. If the
    /// votes on a leaf reach the threshold, the node learns of the
    /// certificate that they make. If the votes on a timeout reach it, their
    /// certificate is sent to all. Either way the accumulator is gone. An
    /// accumulator without votes is not kept.
    pub open spec fn with_vote<M: Membership<VoteTokenType = T>>(
        self,
        membership: &M,
        own_key: M::SignatureKey,
        vote: CastVote<T>,
    ) -> Outcome<T> {
        if !self.gathers(membership, own_key, vote) {
            self.idle()
        } else {
            let at = accumulator_index(self.accumulators, vote.view_number, vote.data, 0);
            let found = at < self.accumulators.len();
            let accumulator = if found {
                self.accumulators[at]
            } else {
                AccumulatorState {
                    data: vote.data,
                    view_number: vote.view_number,
                    threshold: membership.success_threshold(),
                    records: Seq::empty(),
                }
            };
            let rest = if found {
                self.accumulators.remove(at)
            } else {
                self.accumulators
            };
            match accumulated(
                membership,
                vote.key,
                vote.signature,
                vote.data,
                vote.token,
                vote.view_number,
                accumulator,
            ) {
                Either::Left(next) => Outcome {
                    state: ConsensusModel {
                        accumulators: if next.records.len() > 0 {
                            rest.push(next)
                        } else {
                            rest
                        },
                        ..self
                    },
                    actions: match vote_defect(membership, vote) {
                        Some(kind) => seq![ActionRecord::Emit { event: EventRecord::Error { kind } }],
                        None => Seq::empty(),
                    },
                },
                Either::Right(records) => {
                    let state = ConsensusModel { accumulators: rest, ..self };
                    match vote.data {
                        VoteData::Yes(commitment) => state.with_certificate(
                            CertificateRecord {
                                view_number: vote.view_number,
                                commitment,
                                records,
                                genesis: false,
                            },
                        ),
                        _ => Outcome {
                            state,
                            actions: seq![
                                ActionRecord::BroadcastTimeoutCertificate {
                                    view_number: vote.view_number,
                                    records,
                                },
                            ],
                        },
                    }
                },
            }
        }
    }

    /// What becomes of the state when a certificate of the data-availability
    /// committee comes in. A certificate that is accepted and of no lower
    /// view than the anchor makes its block the one known to be available in
    /// its view.
    pub open spec fn with_available(self, accepted: bool, view_number: ViewNumber, block_commitment: Commitment) -> Outcome<
        T,
    > {
        if self.halted || !accepted || view_number < self.anchor_view {
            self.idle()
        } else {
            Outcome {
                state: ConsensusModel {
                    available: self.available.push(AvailableBlock { view_number, block_commitment }),
                    ..self
                },
                actions: Seq::empty(),
            }
        }
    }

    /// What becomes of the state when the timer of the current view fires.
    ///
    /// The node casts the vote that the view timed out, with the highest
    /// certificate it knows, to the leader of the next view, tells its
    /// client, and moves on to the next view. In the last view of all there
    /// is no next view and the node only tells its client.
    pub open spec fn timed_out<M: Membership<VoteTokenType = T>>(
        self,
        membership: &M,
        own_key: M::SignatureKey,
    ) -> Outcome<T> {
        if self.halted {
            self.idle()
        } else if self.current_view == u64::MAX {
            Outcome {
                state: self,
                actions: seq![
                    ActionRecord::Emit {
                        event: EventRecord::ReplicaViewTimeout { view_number: self.current_view },
                    },
                ],
            }
        } else {
            let next = (self.current_view + 1) as u64;
            let vote = ActionRecord::TimeoutVote {
                recipient: membership.leader(next).encoding(),
                view_number: self.current_view,
                justify_qc: self.highest_qc,
            };
            let replica = ActionRecord::Emit {
                event: EventRecord::ReplicaViewTimeout { view_number: self.current_view },
            };
            let leader = ActionRecord::Emit {
                event: EventRecord::NextLeaderViewTimeout { view_number: self.current_view },
            };
            Outcome {
                state: ConsensusModel { current_view: next, ..self },
                actions: if membership.leader(next) == own_key {
                    seq![vote, replica, leader]
                } else {
                    seq![vote, replica]
                },
            }
        }
    }

    /// What becomes of the state when something failed outside the node. The
    /// client is told. A failure of the storage, or a violation of safety,
    /// halts the node.
    pub open spec fn failed(self, kind: ConsensusError) -> Outcome<T> {
        if self.halted {
            self.idle()
        } else {
            Outcome {
                state: ConsensusModel {
                    halted: kind == ConsensusError::StorageFailure || kind
                        == ConsensusError::SafetyViolationDetected,
                    ..self
                },
                actions: seq![ActionRecord::Emit { event: EventRecord::Error { kind } }],
            }
        }
    }

    /// What becomes of the state when the node learns of a certificate, or
    /// of leaves under the highest certificate that it knows. A certificate
    /// of a higher view than the highest known takes its place. Then the
    /// lock moves to what the highest certificate locks, and what it decides
    /// is decided.
    pub open spec fn with_certificate(self, qc: CertificateRecord<T>) -> Outcome<T> {
        let highest = if qc.view_number > self.highest_qc.view_number {
            qc
        } else {
            self.highest_qc
        };
        (ConsensusModel { highest_qc: highest, ..self }).relocked(highest.commitment).committed(
            highest.commitment,
        )
    }
}

/// Adds one action to the list of what is to be done.
fn push_action<T>(actions: &mut Vec<Action<T>>, action: Action<T>)
    ensures
        action_records(final(actions)@) == action_records(old(actions)@).push(action@),
{
    actions.push(action);
    assert(action_records(actions@) =~= action_records(old(actions)@).push(action@));
}

/// The models of a list of accumulators.
pub open spec fn accumulator_states<T: VoteToken>(accumulators: Seq<VoteAccumulator<T>>) -> Seq<
    AccumulatorState<T>,
> {
    Seq::new(accumulators.len(), |i: int| accumulators[i]@)
}

/// Forgets the blocks of a view lower than `floor`.
fn prune_available(blocks: &mut Vec<AvailableBlock>, floor: ViewNumber)
    ensures
        final(blocks)@ == available_from(old(blocks)@, floor),
{
    let ghost before = blocks@;
    let n = blocks.len();
    let mut kept: Vec<AvailableBlock> = Vec::new();
    let mut i: usize = 0;
    while i < n
        invariant
            i <= n,
            n == before.len(),
            blocks@ == before,
            kept@ == available_from(before.take(i as int), floor),
        decreases n - i,
    {
        proof {
            assert(before.take(i + 1).drop_last() =~= before.take(i as int));
            assert(before.take(i + 1).last() == before[i as int]);
            reveal(Seq::filter);
        }
        let block = blocks[i];
        if block.view_number >= floor {
            kept.push(block);
        }
        i += 1;
    }
    assert(before.take(n as int) =~= before);
    *blocks = kept;
}

/// Forgets the accumulators of a view lower than `floor`.
fn prune_accumulators<T: VoteToken>(accumulators: &mut Vec<VoteAccumulator<T>>, floor: ViewNumber)
    ensures
        accumulator_states(final(accumulators)@) == accumulators_from(
            accumulator_states(old(accumulators)@),
            floor,
        ),
{
    let ghost before = accumulator_states(accumulators@);
    let n = accumulators.len();
    let mut reversed: Vec<VoteAccumulator<T>> = Vec::new();
    while accumulators.len() > 0
        invariant
            accumulators@.len() <= n,
            n == before.len(),
            reversed@.len() == n - accumulators@.len(),
            forall|j: int| 0 <= j < accumulators@.len() ==> (#[trigger] accumulators@[j])@ == before[j],
            forall|j: int| 0 <= j < reversed@.len() ==> (#[trigger] reversed@[j])@ == before[n - 1 - j],
        decreases accumulators@.len(),
    {
        let accumulator = accumulators.pop().unwrap();
        reversed.push(accumulator);
    }
    let mut i: usize = 0;
    while reversed.len() > 0
        invariant
            reversed@.len() <= n,
            n == before.len(),
            i == n - reversed@.len(),
            forall|j: int| 0 <= j < reversed@.len() ==> (#[trigger] reversed@[j])@ == before[n - 1 - j],
            accumulator_states(accumulators@) == accumulators_from(before.take(i as int), floor),
        decreases reversed@.len(),
    {
        let accumulator = reversed.pop().unwrap();
        let ghost so_far = accumulator_states(accumulators@);
        proof {
            assert(accumulator@ == before[i as int]);
            assert(before.take(i + 1).drop_last() =~= before.take(i as int));
            assert(before.take(i + 1).last() == before[i as int]);
            reveal(Seq::filter);
        }
        if accumulator.view_number() >= floor {
            accumulators.push(accumulator);
            assert(accumulator_states(accumulators@) =~= so_far.push(before[i as int]));
        }
        i += 1;
    }
    assert(before.take(n as int) =~= before);
}

/// The block that is known to be available in a view. See [`available_in`].
fn find_available(blocks: &Vec<AvailableBlock>, view_number: ViewNumber) -> (found: Option<Commitment>)
    ensures
        found == available_in(blocks@, view_number),
{
    let mut i: usize = blocks.len();
    assert(blocks@.take(i as int) =~= blocks@);
    while i > 0
        invariant
            i <= blocks@.len(),
            available_in(blocks@, view_number) == available_in(blocks@.take(i as int), view_number),
        decreases i,
    {
        proof {
            assert(blocks@.take(i as int).drop_last() =~= blocks@.take(i - 1));
        }
        if blocks[i - 1].view_number == view_number {
            return Some(blocks[i - 1].block_commitment);
        }
        i -= 1;
    }
    assert(blocks@.take(0).len() == 0);
    None
}

/// Takes out the first accumulator that gathers votes on `data` in
/// `view_number`; where there is none, makes one with this threshold.
fn take_accumulator<T: VoteToken>(
    accumulators: &mut Vec<VoteAccumulator<T>>,
    view_number: ViewNumber,
    data: VoteData,
    threshold: u64,
) -> (accumulator: VoteAccumulator<T>)
    requires
        threshold >= 1,
    ensures
        ({
            let before = accumulator_states(old(accumulators)@);
            let at = accumulator_index(before, view_number, data, 0);
            if at < before.len() {
                &&& accumulator@ == before[at]
                &&& accumulator_states(final(accumulators)@) == before.remove(at)
            } else {
                &&& accumulator@ == (AccumulatorState::<T> {
                    data,
                    view_number,
                    threshold: threshold as nat,
                    records: Seq::empty(),
                })
                &&& accumulator_states(final(accumulators)@) == before
            }
        }),
{
    let ghost before = accumulator_states(accumulators@);
    let mut i: usize = 0;
    while i < accumulators.len()
        invariant
            i <= accumulators@.len(),
            before == accumulator_states(accumulators@),
            before == accumulator_states(old(accumulators)@),
            threshold >= 1,
            accumulator_index(before, view_number, data, 0) == accumulator_index(
                before,
                view_number,
                data,
                i as int,
            ),
        decreases accumulators@.len() - i,
    {
        assert(before[i as int] == accumulators@[i as int]@);
        if accumulators[i].view_number() == view_number && accumulators[i].data().same_as(&data) {
            assert(accumulator_index(before, view_number, data, i as int) == i);
            let accumulator = accumulators.remove(i);
            assert(accumulator_states(accumulators@) =~= before.remove(i as int));
            return accumulator;
        }
        assert(accumulator_index(before, view_number, data, i as int) == accumulator_index(
            before,
            view_number,
            data,
            i + 1,
        ));
        i += 1;
    }
    assert(accumulator_index(before, view_number, data, i as int) == before.len());
    VoteAccumulator::new(view_number, data, threshold)
}

/// A message and the node that it goes to.
#[derive(Debug)]
pub struct Outgoing<T> {
    /// The key of the node that the message goes to.
    pub recipient: EncodedPublicKey,
    /// The message.
    pub message: ConsensusMessage<T>,
}

/// Whether `outgoing` carries out `action` with `token`: it goes to the
/// recipient of the action and is the vote that the action asks for, signed
/// by this node over the canonical bytes of what the vote is on.
pub open spec fn carries_out<K: SignatureKey, T>(
    outgoing: Outgoing<T>,
    action: ActionRecord<T>,
    token: T,
    public_key: K,
    private_key: K::PrivateKey,
) -> bool {
    match action {
        ActionRecord::Vote { recipient, data, view_number, justify_qc_commitment } => {
            &&& outgoing.recipient@ == recipient
            &&& match outgoing.message {
                ConsensusMessage::Vote(QuorumVote::Yes(vote)) => {
                    &&& data == VoteData::Yes(vote.leaf_commitment)
                    &&& vote.justify_qc_commitment == justify_qc_commitment
                    &&& vote.current_view == view_number
                    &&& vote.vote_token == token
                    &&& signed_by(public_key, private_key, data.encoding(), vote.signature)
                },
                ConsensusMessage::Vote(QuorumVote::No(vote)) => {
                    &&& data == VoteData::No(vote.leaf_commitment)
                    &&& vote.justify_qc_commitment == justify_qc_commitment
                    &&& vote.current_view == view_number
                    &&& vote.vote_token == token
                    &&& signed_by(public_key, private_key, data.encoding(), vote.signature)
                },
                _ => false,
            }
        },
        ActionRecord::TimeoutVote { recipient, view_number, justify_qc } => {
            &&& outgoing.recipient@ == recipient
            &&& match outgoing.message {
                ConsensusMessage::Vote(QuorumVote::Timeout(vote)) => {
                    &&& vote.justify_qc@ == justify_qc
                    &&& vote.current_view == view_number
                    &&& vote.vote_token == token
                    &&& signed_by(
                        public_key,
                        private_key,
                        VoteData::Timeout(view_number).encoding(),
                        vote.signature,
                    )
                },
                _ => false,
            }
        },
        _ => false,
    }
}

/// The view that an action asks for a vote in, if it asks for one that this
/// node can cast: a vote that accepts or refuses a leaf, or the vote that a
/// view timed out.
pub open spec fn vote_view<T>(action: ActionRecord<T>) -> Option<ViewNumber> {
    match action {
        ActionRecord::Vote { data, view_number, .. } => if data is Yes || data is No {
            Some(view_number)
        } else {
            None
        },
        ActionRecord::TimeoutVote { view_number, .. } => Some(view_number),
        _ => None,
    }
}

/// Makes the message that casts the vote an action asks for.
///
/// An action that asks for no vote gives no message. Else the election is
/// asked for this node's token in the view of the vote. Its error comes back
/// as it is; without a token there is no message; with one, the message is
/// the vote with that token, signed by this node, for the recipient of the
/// action.
pub fn vote_message<M: Membership, N>(quorum: &QuorumExchange<M, N>, action: Action<M::VoteTokenType>) -> (made:
    Result<Option<Outgoing<M::VoteTokenType>>, ElectionError>)
    ensures
        match vote_view(action@) {
            None => made == Ok::<Option<Outgoing<M::VoteTokenType>>, ElectionError>(None),
            Some(view_number) => match quorum.election().vote_token(view_number, quorum.own_private_key()) {
                Err(error) => made == Err::<Option<Outgoing<M::VoteTokenType>>, ElectionError>(error),
                Ok(None) => made == Ok::<Option<Outgoing<M::VoteTokenType>>, ElectionError>(None),
                Ok(Some(token)) => match made {
                    Ok(Some(outgoing)) => carries_out(
                        outgoing,
                        action@,
                        token,
                        quorum.own_key(),
                        quorum.own_private_key(),
                    ),
                    _ => false,
                },
            },
        },
{
    match action {
        Action::Vote { recipient, data, view_number, justify_qc_commitment } => {
            match data {
                VoteData::Yes(commitment) => match quorum.make_vote_token(view_number) {
                    Err(error) => Err(error),
                    Ok(None) => Ok(None),
                    Ok(Some(token)) => Ok(
                        Some(
                            Outgoing {
                                recipient,
                                message: quorum.create_yes_message(
                                    justify_qc_commitment,
                                    commitment,
                                    view_number,
                                    token,
                                ),
                            },
                        ),
                    ),
                },
                VoteData::No(commitment) => match quorum.make_vote_token(view_number) {
                    Err(error) => Err(error),
                    Ok(None) => Ok(None),
                    Ok(Some(token)) => Ok(
                        Some(
                            Outgoing {
                                recipient,
                                message: quorum.create_no_message(
                                    justify_qc_commitment,
                                    commitment,
                                    view_number,
                                    token,
                                ),
                            },
                        ),
                    ),
                },
                _ => Ok(None),
            }
        },
        Action::TimeoutVote { recipient, view_number, justify_qc } => match quorum.make_vote_token(view_number) {
            Err(error) => Err(error),
            Ok(None) => Ok(None),
            Ok(Some(token)) => Ok(
                Some(
                    Outgoing {
                        recipient,
                        message: quorum.create_timeout_message(justify_qc, view_number, token),
                    },
                ),
            ),
        },
        _ => Ok(None),
    }
}

/// The state of one node.
#[derive(Debug)]
pub struct Consensus<T: VoteToken> {
    halted: bool,
    current_view: ViewNumber,
    last_proposed_view: ViewNumber,
    last_voted_view: ViewNumber,
    anchor_view: ViewNumber,
    anchor_leaf: Commitment,
    locked_view: ViewNumber,
    locked_leaf: Commitment,
    highest_qc: QuorumCertificate<T>,
    leaves: Chain<T>,
    pending: Chain<T>,
    available: Vec<AvailableBlock>,
    accumulators: Vec<VoteAccumulator<T>>,
}

impl<T: VoteToken> View for Consensus<T> {
    type V = ConsensusModel<T>;

    closed spec fn view(&self) -> ConsensusModel<T> {
        ConsensusModel {
            halted: self.halted,
            current_view: self.current_view,
            last_proposed_view: self.last_proposed_view,
            last_voted_view: self.last_voted_view,
            anchor_view: self.anchor_view,
            anchor_leaf: self.anchor_leaf,
            locked_view: self.locked_view,
            locked_leaf: self.locked_leaf,
            highest_qc: self.highest_qc@,
            leaves: self.leaves@,
            pending: self.pending@,
            available: self.available@,
            accumulators: accumulator_states(self.accumulators@),
        }
    }
}

impl<T: VoteToken> Consensus<T> {
    /// The state of a node that starts at `anchor`, the leaf that starts the chain.
    pub fn new(anchor: Leaf<T>) -> (consensus: Self)
        ensures
            consensus@ == ConsensusModel::initial(anchor@),
    {
        let view_number = anchor.view_number;
        let commitment = anchor.commitment;
        let mut highest_qc = <QuorumCertificate<T> as SignedCertificate<T>>::genesis();
        highest_qc.set_leaf_commitment(commitment);
        highest_qc.view_number = view_number;
        let mut leaves = Chain::new();
        let ghost record = anchor@;
        leaves.insert(anchor);
        let consensus = Consensus {
            halted: false,
            current_view: view_number,
            last_proposed_view: view_number,
            last_voted_view: view_number,
            anchor_view: view_number,
            anchor_leaf: commitment,
            locked_view: view_number,
            locked_leaf: commitment,
            highest_qc,
            leaves,
            pending: Chain::new(),
            available: Vec::new(),
            accumulators: Vec::new(),
        };
        proof {
            assert(consensus@.leaves =~= seq![record]);
            assert(consensus@.accumulators =~= Seq::<AccumulatorState<T>>::empty());
            assert(consensus@.available =~= Seq::<AvailableBlock>::empty());
        }
        consensus
    }

    /// The parent of `tip` if a certificate for `tip` locks it. See
    /// [`ConsensusModel::locked_by`].
    fn locked_by(&self, tip: &Commitment) -> (locked: Option<Link>)
        ensures
            locked is Some == self@.locked_by(*tip) is Some,
            locked matches Some(link) ==> link == link_of(self@.locked_by(*tip).unwrap()),
    {
        match self.leaves.link(tip) {
            Some(leaf) => match self.leaves.link(&leaf.parent_commitment) {
                Some(parent) => {
                    if parent.view_number < u64::MAX && leaf.view_number == parent.view_number + 1
                        && leaf.certified_commitment.same_as(&parent.commitment) && leaf.certified_view
                        == parent.view_number {
                        Some(parent)
                    } else {
                        None
                    }
                },
                None => None,
            },
            None => None,
        }
    }

    /// The grandparent of `tip` if a certificate for `tip` decides it. See
    /// [`ConsensusModel::decided_by`].
    fn decided_by(&self, tip: &Commitment) -> (decided: Option<Link>)
        ensures
            decided is Some == self@.decided_by(*tip) is Some,
            decided matches Some(link) ==> link == link_of(self@.decided_by(*tip).unwrap()),
    {
        match self.locked_by(tip) {
            Some(parent) => match self.leaves.link(&parent.parent_commitment) {
                Some(grandparent) => {
                    if grandparent.view_number < u64::MAX && parent.view_number == grandparent.view_number + 1
                        && parent.certified_commitment.same_as(&grandparent.commitment)
                        && parent.certified_view == grandparent.view_number {
                        Some(grandparent)
                    } else {
                        None
                    }
                },
                None => None,
            },
            None => None,
        }
    }

    /// Decides what a certificate for `tip` decides. See [`ConsensusModel::committed`].
    fn commit(&mut self, tip: &Commitment, actions: &mut Vec<Action<T>>)
        ensures
            final(self)@ == old(self)@.committed(*tip).state,
            action_records(final(actions)@) == action_records(old(actions)@) + old(self)@.committed(
                *tip,
            ).actions,
    {
        let ghost before = self@;
        let ghost done = action_records(actions@);
        match self.decided_by(tip) {
            Some(decided) => {
                if decided.view_number <= self.anchor_view {
                    assert(done + Seq::<ActionRecord<T>>::empty() =~= done);
                    return ;
                }
                let end = self.leaves.lineage_end(decided.commitment, self.anchor_view);
                if end.same_as(&self.anchor_leaf) {
                    let leaf_chain = self.leaves.lineage(decided.commitment, self.anchor_view);
                    let parent = self.locked_by(tip).unwrap();
                    let qc = match self.leaves.get(&parent.commitment) {
                        Some(leaf) => leaf.justify_qc.clone(),
                        None => vstd::pervasive::unreached(),
                    };
                    let event = Event::Decide { leaf_chain, qc, block_size: decided.block_size };
                    proof {
                        let expected = EventRecord::Decide {
                            leaf_chain: lineage(before.leaves, decided.commitment, before.anchor_view),
                            qc: before.locked_by(*tip).unwrap().justify_qc,
                            block_size: decided.block_size,
                        };
                        assert(event@->Decide_leaf_chain =~= expected->Decide_leaf_chain);
                        assert(event@ == expected);
                    }
                    push_action(actions, Action::Emit { event });
                    self.anchor_view = decided.view_number;
                    self.anchor_leaf = decided.commitment;
                    self.leaves.prune(decided.view_number);
                    self.pending.prune(decided.view_number);
                    prune_available(&mut self.available, decided.view_number);
                    prune_accumulators(&mut self.accumulators, decided.view_number);
                    proof {
                        assert(action_records(actions@) =~= done + before.committed(*tip).actions);
                    }
                } else {
                    let conflict = match self.leaves.link(&end) {
                        Some(link) => link.view_number <= self.anchor_view,
                        None => false,
                    };
                    if conflict {
                        self.halted = true;
                        push_action(
                            actions,
                            Action::Emit {
                                event: Event::Error { kind: ConsensusError::SafetyViolationDetected },
                            },
                        );
                    } else {
                        push_action(
                            actions,
                            Action::Emit { event: Event::Error { kind: ConsensusError::ChainGap } },
                        );
                    }
                    proof {
                        assert(action_records(actions@) =~= done + before.committed(*tip).actions);
                    }
                }
            },
            None => {
                assert(done + Seq::<ActionRecord<T>>::empty() =~= done);
            },
        }
    }

    /// Learns of a certificate. See [`ConsensusModel::with_certificate`].
    fn learn_certificate(&mut self, qc: QuorumCertificate<T>, actions: &mut Vec<Action<T>>)
        ensures
            final(self)@ == old(self)@.with_certificate(qc@).state,
            action_records(final(actions)@) == action_records(old(actions)@) + old(self)@.with_certificate(
                qc@,
            ).actions,
    {
        if qc.view_number > self.highest_qc.view_number {
            self.highest_qc = qc;
        }
        let tip = self.highest_qc.leaf_commitment;
        self.relock(&tip);
        self.commit(&tip, actions);
    }

    /// Moves the lock to what a certificate for `tip` locks. See
    /// [`ConsensusModel::relocked`].
    fn relock(&mut self, tip: &Commitment)
        ensures
            final(self)@ == old(self)@.relocked(*tip),
    {
        match self.locked_by(tip) {
            Some(parent) => {
                if parent.view_number > self.locked_view {
                    self.locked_view = parent.view_number;
                    self.locked_leaf = parent.commitment;
                }
            },
            None => {},
        }
    }

    /// The node enters a view. See [`ConsensusModel::entered`].
    ///
    /// `block` is the new block to propose if this node leads the view; with
    /// none at hand, the block of the leaf under the highest certificate is
    /// proposed again.
    pub fn enter<M: Membership<VoteTokenType = T>, N>(
        &mut self,
        quorum: &QuorumExchange<M, N>,
        view_number: ViewNumber,
        block: Option<BlockInfo>,
    ) -> (actions: Vec<Action<T>>)
        ensures
            final(self)@ == old(self)@.entered(
                view_number,
                block,
                quorum.election().leader(view_number) == quorum.own_key(),
            ).state,
            action_records(actions@) == old(self)@.entered(
                view_number,
                block,
                quorum.election().leader(view_number) == quorum.own_key(),
            ).actions,
    {
        let mut actions: Vec<Action<T>> = Vec::new();
        assert(action_records(actions@) =~= Seq::<ActionRecord<T>>::empty());
        if self.halted || view_number < self.current_view {
            return actions;
        }
        let floor = if view_number > 0 {
            view_number - 1
        } else {
            0
        };
        self.current_view = view_number;
        prune_accumulators(&mut self.accumulators, floor);
        push_action(&mut actions, Action::StartTimer { view_number });
        let carried = match block {
            Some(b) => Some(b),
            None => match self.leaves.link(&self.highest_qc.leaf_commitment) {
                Some(link) => Some(BlockInfo { commitment: link.block_commitment, size: link.block_size }),
                None => None,
            },
        };
        if view_number > self.last_proposed_view && view_number > self.highest_qc.view_number {
            match carried {
                Some(block) => {
                    if quorum.is_leader(view_number) {
                        self.last_proposed_view = view_number;
                        push_action(
                            &mut actions,
                            Action::Propose {
                                view_number,
                                parent_commitment: self.highest_qc.leaf_commitment,
                                justify_qc: self.highest_qc.clone(),
                                block,
                            },
                        );
                    }
                },
                None => {},
            }
        }
        proof {
            assert(action_records(actions@) =~= old(self)@.entered(
                view_number,
                block,
                quorum.election().leader(view_number) == quorum.own_key(),
            ).actions);
        }
        actions
    }

    /// A proposal comes in. See [`ConsensusModel::with_proposal`].
    ///
    /// `justify_qc_commitment` is the commitment of the certificate that the
    /// leaf carries; it goes out again with the vote.
    pub fn receive_proposal<M: Membership<VoteTokenType = T>, N>(
        &mut self,
        quorum: &QuorumExchange<M, N>,
        proposal: ValidatingProposal<T>,
        justify_qc_commitment: Commitment,
    ) -> (actions: Vec<Action<T>>)
        ensures
            final(self)@ == old(self)@.with_proposal(
                &quorum.election(),
                proposal.leaf@,
                justify_qc_commitment,
            ).state,
            action_records(actions@) == old(self)@.with_proposal(
                &quorum.election(),
                proposal.leaf@,
                justify_qc_commitment,
            ).actions,
    {
        let ghost before = self@;
        let mut actions: Vec<Action<T>> = Vec::new();
        assert(action_records(actions@) =~= Seq::<ActionRecord<T>>::empty());
        let leaf = proposal.leaf;
        if self.halted || leaf.view_number <= self.anchor_view {
            return actions;
        }
        if self.leaves.get(&leaf.commitment).is_some() {
            return actions;
        }
        if !leaf.justify_qc.leaf_commitment.same_as(&leaf.parent_commitment) {
            return actions;
        }
        if !quorum.is_valid_cert(&leaf.justify_qc, leaf.parent_commitment) {
            return actions;
        }
        let parent = match self.leaves.link(&leaf.parent_commitment) {
            Some(parent) => parent,
            None => {
                if self.pending.len() < PENDING_LIMIT {
                    self.pending.insert(leaf);
                }
                push_action(
                    &mut actions,
                    Action::Emit { event: Event::Error { kind: ConsensusError::ChainGap } },
                );
                assert(action_records(actions@) =~= before.with_proposal(
                    &quorum.election(),
                    proposal.leaf@,
                    justify_qc_commitment,
                ).actions);
                return actions;
            },
        };
        if !(leaf.justify_qc.view_number == parent.view_number && parent.view_number < leaf.view_number) {
            return actions;
        }
        let view_number = leaf.view_number;
        let commitment = leaf.commitment;
        let may_vote = view_number == self.current_view && view_number > self.last_voted_view;
        let safe = leaf.justify_qc.view_number > self.locked_view || (leaf.justify_qc.view_number
            >= self.locked_view && self.leaves.lineage_end(
            leaf.parent_commitment,
            self.locked_view,
        ).same_as(&self.locked_leaf));
        let available = match find_available(&self.available, view_number) {
            Some(block) => block.same_as(&leaf.block_commitment),
            None => false,
        };
        let data = if safe && available {
            VoteData::Yes(commitment)
        } else {
            VoteData::No(commitment)
        };
        let qc = leaf.justify_qc.clone();
        let tip = leaf.parent_commitment;
        self.leaves.insert(leaf);
        let best = self.adopt(qc);
        self.relock(&tip);
        self.learn_certificate(best, &mut actions);
        if self.halted || !may_vote {
            proof {
                assert(Seq::<ActionRecord<T>>::empty() + before.with_proposal(
                    &quorum.election(),
                    proposal.leaf@,
                    justify_qc_commitment,
                ).actions =~= before.with_proposal(
                    &quorum.election(),
                    proposal.leaf@,
                    justify_qc_commitment,
                ).actions);
            }
            return actions;
        }
        self.last_voted_view = view_number;
        let ghost advanced = action_records(actions@);
        if view_number < u64::MAX {
            let recipient = quorum.get_leader(view_number + 1).to_bytes();
            push_action(&mut actions, Action::Vote { recipient, data, view_number, justify_qc_commitment });
        }
        proof {
            let grown = ConsensusModel { leaves: before.leaves.push(proposal.leaf@), ..before };
            let settled = grown.adopted(proposal.leaf@.justify_qc);
            let locked = settled.state.relocked(proposal.leaf@.justify_qc.commitment);
            assert(Seq::<ActionRecord<T>>::empty() + locked.with_certificate(settled.best).actions
                =~= locked.with_certificate(settled.best).actions);
        }
        actions
    }

    /// Lets the waiting leaves that fit join the chain. See [`ConsensusModel::adopted`].
    fn adopt(&mut self, carried: QuorumCertificate<T>) -> (highest: QuorumCertificate<T>)
        ensures
            final(self)@ == old(self)@.adopted(carried@).state,
            highest@ == old(self)@.adopted(carried@).best,
    {
        let ghost first = carried@;
        let mut best = carried;
        loop
            invariant
                first == carried@,
                self@.adopted(best@) == old(self)@.adopted(first),
            decreases self@.pending.len(),
        {
            let n = self.pending.len();
            let mut i: usize = 0;
            let mut found: Option<usize> = None;
            while i < n
                invariant_except_break
                    found is None,
                    self@.first_adoptable(0) == self@.first_adoptable(i as int),
                invariant
                    i <= n,
                    n == self@.pending.len(),
                    self@.adopted(best@) == old(self)@.adopted(first),
                ensures
                    found matches Some(at) ==> at < n && self@.first_adoptable(0) == at && self@.adoptable(
                        self@.pending[at as int],
                    ),
                    found is None ==> self@.first_adoptable(0) == n,
                    n == self@.pending.len(),
                    self@.adopted(best@) == old(self)@.adopted(first),
                decreases n - i,
            {
                let leaf = self.pending.at(i);
                let fits = self.leaves.get(&leaf.commitment).is_none() && match self.leaves.link(
                    &leaf.parent_commitment,
                ) {
                    Some(parent) => leaf.justify_qc.view_number == parent.view_number && parent.view_number
                        < leaf.view_number,
                    None => false,
                };
                if fits {
                    assert(self@.first_adoptable(i as int) == i);
                    found = Some(i);
                    break ;
                }
                assert(self@.first_adoptable(i as int) == self@.first_adoptable(i + 1));
                i += 1;
            }
            match found {
                None => {
                    assert(self@.adopted(best@) == (Adoption { state: self@, best: best@ }));
                    return best;
                },
                Some(at) => {
                    let ghost standing = self@;
                    let ghost was = best@;
                    assert(standing.adoptable(standing.pending[at as int]));
                    let leaf = self.pending.take(at);
                    if leaf.justify_qc.view_number > best.view_number {
                        best = leaf.justify_qc.clone();
                    }
                    let ghost record = leaf@;
                    self.leaves.insert(leaf);
                    proof {
                        assert(self@ == (ConsensusModel {
                            leaves: standing.leaves.push(record),
                            pending: standing.pending.remove(at as int),
                            ..standing
                        }));
                        assert(standing.adopted(was) == self@.adopted(best@));
                    }
                },
            }
        }
    }

    /// A vote comes in. See [`ConsensusModel::with_vote`].
    pub fn receive_vote<M: Membership<VoteTokenType = T>, N>(
        &mut self,
        quorum: &QuorumExchange<M, N>,
        vote: QuorumVote<T>,
    ) -> (actions: Vec<Action<T>>)
        ensures
            final(self)@ == old(self)@.with_vote(&quorum.election(), quorum.own_key(), cast_of(vote)).state,
            action_records(actions@) == old(self)@.with_vote(
                &quorum.election(),
                quorum.own_key(),
                cast_of(vote),
            ).actions,
    {
        let ghost before = self@;
        let ghost expected = before.with_vote(&quorum.election(), quorum.own_key(), cast_of(vote));
        let mut actions: Vec<Action<T>> = Vec::new();
        assert(action_records(actions@) =~= Seq::<ActionRecord<T>>::empty());
        let view_number = vote.current_view();
        if self.halted || view_number == u64::MAX || view_number < self.anchor_view {
            return actions;
        }
        match vote {
            QuorumVote::No(_) => {},
            QuorumVote::Yes(v) => {
                if view_number > self.highest_qc.view_number && quorum.is_leader(view_number + 1) {
                    let data = VoteData::Yes(v.leaf_commitment);
                    let accumulator = take_accumulator(
                        &mut self.accumulators,
                        view_number,
                        data,
                        quorum.threshold(),
                    );
                    let ghost rest = accumulator_states(self.accumulators@);
                    let gathered = accumulator.len();
                    let spare = v.vote_token.clone();
                    proof {
                        T::lemma_clone_is_exact(v.vote_token, spare);
                        lemma_vote_defect(&quorum.election(), cast_of(vote));
                    }
                    match quorum.accumulate_vote(
                        &v.signature.0,
                        &v.signature.1,
                        v.leaf_commitment,
                        v.vote_token,
                        view_number,
                        accumulator,
                    ) {
                        Either::Left(next) => {
                            if next.len() == gathered {
                                match diagnose_vote(
                                    quorum.membership(),
                                    &v.signature.0,
                                    &v.signature.1,
                                    data,
                                    view_number,
                                    spare,
                                ) {
                                    Some(kind) => {
                                        push_action(&mut actions, Action::Emit { event: Event::Error { kind } });
                                        assert(action_records(actions@) =~= expected.actions);
                                    },
                                    None => {},
                                }
                            }
                            if next.len() > 0 {
                                self.accumulators.push(next);
                                assert(accumulator_states(self.accumulators@) =~= rest.push(next@));
                            }
                        },
                        Either::Right(qc) => {
                            self.learn_certificate(qc, &mut actions);
                            assert(Seq::<ActionRecord<T>>::empty() + expected.actions =~= expected.actions);
                        },
                    }
                }
            },
            QuorumVote::Timeout(v) => {
                if quorum.is_leader(view_number + 1) {
                    let data = VoteData::Timeout(view_number);
                    let accumulator = take_accumulator(
                        &mut self.accumulators,
                        view_number,
                        data,
                        quorum.threshold(),
                    );
                    let ghost rest = accumulator_states(self.accumulators@);
                    let gathered = accumulator.len();
                    let spare = v.vote_token.clone();
                    proof {
                        T::lemma_clone_is_exact(v.vote_token, spare);
                        lemma_vote_defect(&quorum.election(), cast_of(vote));
                    }
                    match quorum.accumulate_timeout_vote(
                        &v.signature.0,
                        &v.signature.1,
                        v.vote_token,
                        view_number,
                        accumulator,
                    ) {
                        Either::Left(next) => {
                            if next.len() == gathered {
                                match diagnose_vote(
                                    quorum.membership(),
                                    &v.signature.0,
                                    &v.signature.1,
                                    data,
                                    view_number,
                                    spare,
                                ) {
                                    Some(kind) => {
                                        push_action(&mut actions, Action::Emit { event: Event::Error { kind } });
                                        assert(action_records(actions@) =~= expected.actions);
                                    },
                                    None => {},
                                }
                            }
                            if next.len() > 0 {
                                self.accumulators.push(next);
                                assert(accumulator_states(self.accumulators@) =~= rest.push(next@));
                            }
                        },
                        Either::Right(certificate) => {
                            push_action(&mut actions, Action::BroadcastTimeoutCertificate { certificate });
                            assert(action_records(actions@) =~= expected.actions);
                        },
                    }
                }
            },
        }
        actions
    }

    /// The timer of the current view fires. See [`ConsensusModel::timed_out`].
    pub fn timer_fire<M: Membership<VoteTokenType = T>, N>(&mut self, quorum: &QuorumExchange<M, N>) -> (actions:
        Vec<Action<T>>)
        ensures
            final(self)@ == old(self)@.timed_out(&quorum.election(), quorum.own_key()).state,
            action_records(actions@) == old(self)@.timed_out(&quorum.election(), quorum.own_key()).actions,
    {
        let mut actions: Vec<Action<T>> = Vec::new();
        assert(action_records(actions@) =~= Seq::<ActionRecord<T>>::empty());
        if self.halted {
            return actions;
        }
        let view_number = self.current_view;
        if view_number == u64::MAX {
            push_action(&mut actions, Action::Emit { event: Event::ReplicaViewTimeout { view_number } });
            assert(action_records(actions@) =~= old(self)@.timed_out(
                &quorum.election(),
                quorum.own_key(),
            ).actions);
            return actions;
        }
        let next = view_number + 1;
        let recipient = quorum.get_leader(next).to_bytes();
        push_action(
            &mut actions,
            Action::TimeoutVote { recipient, view_number, justify_qc: self.highest_qc.clone() },
        );
        push_action(&mut actions, Action::Emit { event: Event::ReplicaViewTimeout { view_number } });
        if quorum.is_leader(next) {
            push_action(&mut actions, Action::Emit { event: Event::NextLeaderViewTimeout { view_number } });
        }
        self.current_view = next;
        proof {
            assert(action_records(actions@) =~= old(self)@.timed_out(
                &quorum.election(),
                quorum.own_key(),
            ).actions);
        }
        actions
    }

    /// A certificate of the data-availability committee comes in. See
    /// [`ConsensusModel::with_available`].
    pub fn receive_da_cert<D: Membership, N>(
        &mut self,
        committee: &CommitteeExchange<D, N>,
        certificate: &DACertificate<D::VoteTokenType>,
    ) -> (actions: Vec<Action<T>>)
        ensures
            final(self)@ == old(self)@.with_available(
                certificate_accepted(
                    &committee.election(),
                    certificate@,
                    VoteData::DA(certificate.block_commitment),
                ),
                certificate.view_number,
                certificate.block_commitment,
            ).state,
            action_records(actions@) == Seq::<ActionRecord<T>>::empty(),
    {
        let actions: Vec<Action<T>> = Vec::new();
        assert(action_records(actions@) =~= Seq::<ActionRecord<T>>::empty());
        if self.halted || certificate.view_number < self.anchor_view {
            return actions;
        }
        if !committee.is_valid_cert(certificate, certificate.block_commitment) {
            return actions;
        }
        self.available.push(
            AvailableBlock {
                view_number: certificate.view_number,
                block_commitment: certificate.block_commitment,
            },
        );
        actions
    }

    /// Something failed outside the node. See [`ConsensusModel::failed`].
    pub fn fail(&mut self, kind: ConsensusError) -> (actions: Vec<Action<T>>)
        ensures
            final(self)@ == old(self)@.failed(kind).state,
            action_records(actions@) == old(self)@.failed(kind).actions,
    {
        let mut actions: Vec<Action<T>> = Vec::new();
        assert(action_records(actions@) =~= Seq::<ActionRecord<T>>::empty());
        if self.halted {
            return actions;
        }
        match kind {
            ConsensusError::StorageFailure => {
                self.halted = true;
            },
            ConsensusError::SafetyViolationDetected => {
                self.halted = true;
            },
            _ => {},
        }
        push_action(&mut actions, Action::Emit { event: Event::Error { kind } });
        assert(action_records(actions@) =~= old(self)@.failed(kind).actions);
        actions
    }

    /// Whether the node has halted.
    pub fn is_halted(&self) -> (halted: bool)
        ensures
            halted == self@.halted,
    {
        self.halted
    }

    /// The view that the node is in.
    pub fn current_view(&self) -> (view_number: ViewNumber)
        ensures
            view_number == self@.current_view,
    {
        self.current_view
    }

    /// The last view that the node proposed in.
    pub fn last_proposed_view(&self) -> (view_number: ViewNumber)
        ensures
            view_number == self@.last_proposed_view,
    {
        self.last_proposed_view
    }

    /// The last view that the node voted in.
    pub fn last_voted_view(&self) -> (view_number: ViewNumber)
        ensures
            view_number == self@.last_voted_view,
    {
        self.last_voted_view
    }

    /// The view of the leaf that was decided last.
    pub fn anchor_view(&self) -> (view_number: ViewNumber)
        ensures
            view_number == self@.anchor_view,
    {
        self.anchor_view
    }

    /// The leaf that was decided last.
    pub fn anchor_leaf(&self) -> (commitment: Commitment)
        ensures
            commitment == self@.anchor_leaf,
    {
        self.anchor_leaf
    }

    /// The view of the leaf that the node is locked on.
    pub fn locked_view(&self) -> (view_number: ViewNumber)
        ensures
            view_number == self@.locked_view,
    {
        self.locked_view
    }

    /// The leaf that the node is locked on.
    pub fn locked_leaf(&self) -> (commitment: Commitment)
        ensures
            commitment == self@.locked_leaf,
    {
        self.locked_leaf
    }

    /// The certificate of the highest view that the node knows.
    pub fn highest_qc(&self) -> (qc: &QuorumCertificate<T>)
        ensures
            qc@ == self@.highest_qc,
    {
        &self.highest_qc
    }

    /// The leaf with a commitment, if the node knows it.
    pub fn leaf(&self, commitment: &Commitment) -> (found: Option<&Leaf<T>>)
        ensures
            found is Some == has_leaf(self@.leaves, *commitment),
            found matches Some(leaf) ==> leaf@ == leaf_of(self@.leaves, *commitment),
    {
        self.leaves.get(commitment)
    }

    /// The number of leaves that the node knows.
    pub fn leaf_count(&self) -> (n: usize)
        ensures
            n == self@.leaves.len(),
    {
        self.leaves.len()
    }

    /// The number of leaves that wait for their parents.
    pub fn pending_count(&self) -> (n: usize)
        ensures
            n == self@.pending.len(),
    {
        self.pending.len()
    }

    /// The number of accumulators that the node holds.
    pub fn accumulator_count(&self) -> (n: usize)
        ensures
            n == self@.accumulators.len(),
    {
        self.accumulators.len()
    }
}

} // verus!
