//! Votes as they are sent, and the accumulator that gathers them until
//! their stake reaches the threshold.

use vstd::prelude::*;
use either::Either;
use crate::certificate::{has_key, total_weight, lemma_total_weight_push, QuorumCertificate, SignatureMap, VoteRecord};
use crate::data::{Commitment, ViewNumber, VoteData};
use crate::election::VoteToken;
use crate::signature_key::{EncodedPublicKey, EncodedSignature};

verus! {

/// `either::Either`, a value of one of two types. Its two variants, `Left`
/// and `Right`, are read as they are declared.
#[verifier::external_type_specification]
#[verifier::reject_recursive_types(L)]
#[verifier::reject_recursive_types(R)]
pub struct ExEither<L, R>(Either<L, R>);

/// A vote that a block's payload can be retrieved.
#[derive(Debug)]
pub struct DAVote<T> {
    /// The certificate that the proposal builds on.
    pub justify_qc_commitment: Commitment,
    /// The voter's key and its signature over the vote data.
    pub signature: (EncodedPublicKey, EncodedSignature),
    /// The block that the vote is about.
    pub block_commitment: Commitment,
    /// The view that the vote was cast in.
    pub current_view: ViewNumber,
    /// The token that gives the vote its weight.
    pub vote_token: T,
}

/// A vote that accepts or refuses a leaf.
#[derive(Debug)]
pub struct YesOrNoVote<T> {
    /// The certificate that the proposal builds on.
    pub justify_qc_commitment: Commitment,
    /// The voter's key and its signature over the vote data.
    pub signature: (EncodedPublicKey, EncodedSignature),
    /// The leaf that the vote is about.
    pub leaf_commitment: Commitment,
    /// The view that the vote was cast in.
    pub current_view: ViewNumber,
    /// The token that gives the vote its weight.
    pub vote_token: T,
}

/// A vote that a view ended without a decision.
#[derive(Debug)]
pub struct TimeoutVote<T> {
    /// The highest certificate that the voter knows.
    pub justify_qc: QuorumCertificate<T>,
    /// The voter's key and its signature over the vote data.
    pub signature: (EncodedPublicKey, EncodedSignature),
    /// The view that timed out.
    pub current_view: ViewNumber,
    /// The token that gives the vote its weight.
    pub vote_token: T,
}

/// A vote of the quorum.
#[derive(Debug)]
pub enum QuorumVote<T> {
    /// The leaf is accepted.
    Yes(YesOrNoVote<T>),
    /// The leaf is refused.
    No(YesOrNoVote<T>),
    /// The view timed out.
    Timeout(TimeoutVote<T>),
}

impl<T> QuorumVote<T> {
    /// The view that the vote was cast in.
    pub open spec fn view_number(&self) -> ViewNumber {
        match self {
            QuorumVote::Yes(v) => v.current_view,
            QuorumVote::No(v) => v.current_view,
            QuorumVote::Timeout(v) => v.current_view,
        }
    }

    /// The view that the vote was cast in.
    pub fn current_view(&self) -> (view: ViewNumber)
        ensures
            view == self.view_number(),
    {
        match self {
            QuorumVote::Yes(v) => v.current_view,
            QuorumVote::No(v) => v.current_view,
            QuorumVote::Timeout(v) => v.current_view,
        }
    }
}

/// The model of a [`VoteAccumulator`].
pub ghost struct AccumulatorState<T> {
    /// What the votes are about.
    pub data: VoteData,
    /// The view that the votes are for.
    pub view_number: ViewNumber,
    /// The stake at which the votes become a certificate.
    pub threshold: nat,
    /// The votes gathered so far, one for each voter.
    pub records: Seq<VoteRecord<T>>,
}

impl<T: VoteToken> AccumulatorState<T> {
    /// The stake of the votes gathered so far.
    pub open spec fn stake(self) -> nat {
        total_weight(self.records)
    }

    /// Whether a vote of `key` is taken in: no vote of that voter is there yet.
    pub open spec fn admits(self, key: Seq<u8>) -> bool {
        !has_key(self.records, key)
    }

    /// The state with one more vote.
    pub open spec fn with(self, record: VoteRecord<T>) -> Self {
        AccumulatorState { records: self.records.push(record), ..self }
    }

    /// What becomes of the state when a vote comes in. A voter that was
    /// counted before changes nothing. Else the vote is recorded; if the
    /// stake then reaches the threshold, the votes leave as the signatures
    /// of a certificate.
    pub open spec fn after(self, record: VoteRecord<T>) -> Either<AccumulatorState<T>, Seq<VoteRecord<T>>> {
        if !self.admits(record.key) {
            Either::Left(self)
        } else if self.with(record).stake() >= self.threshold {
            Either::Right(self.with(record).records)
        } else {
            Either::Left(self.with(record))
        }
    }
}

/// The model of what an accumulator gives back for a vote: its own next
/// state, or the votes of a certificate.
pub open spec fn outcome_view<T: VoteToken>(outcome: Either<VoteAccumulator<T>, SignatureMap<T>>) -> Either<
    AccumulatorState<T>,
    Seq<VoteRecord<T>>,
> {
    match outcome {
        Either::Left(accumulator) => Either::Left(accumulator@),
        Either::Right(signatures) => Either::Right(signatures@),
    }
}

/// Gathers the votes on one thing in one view. Each voter counts once. When
/// the stake of the votes reaches the threshold the accumulator gives way
/// to the signatures of a certificate.
#[derive(Debug)]
pub struct VoteAccumulator<T: VoteToken> {
    data: VoteData,
    view_number: ViewNumber,
    success_threshold: u64,
    stake_casted: u64,
    signatures: SignatureMap<T>,
}

impl<T: VoteToken> View for VoteAccumulator<T> {
    type V = AccumulatorState<T>;

    closed spec fn view(&self) -> AccumulatorState<T> {
        AccumulatorState {
            data: self.data,
            view_number: self.view_number,
            threshold: self.success_threshold as nat,
            records: self.signatures@,
        }
    }
}

impl<T: VoteToken> VoteAccumulator<T> {
    #[verifier::type_invariant]
    spec fn pending(self) -> bool {
        &&& self.stake_casted == total_weight(self.signatures@)
        &&& self.stake_casted < self.success_threshold
    }

    /// An accumulator without votes.
    pub fn new(view_number: ViewNumber, data: VoteData, success_threshold: u64) -> (accumulator: Self)
        requires
            success_threshold >= 1,
        ensures
            accumulator@ == (AccumulatorState::<T> {
                data,
                view_number,
                threshold: success_threshold as nat,
                records: Seq::empty(),
            }),
    {
        VoteAccumulator {
            data,
            view_number,
            success_threshold,
            stake_casted: 0,
            signatures: SignatureMap::new(),
        }
    }

    /// What the votes are about.
    pub fn data(&self) -> (data: VoteData)
        ensures
            data == self@.data,
    {
        self.data
    }

    /// The view that the votes are for.
    pub fn view_number(&self) -> (view_number: ViewNumber)
        ensures
            view_number == self@.view_number,
    {
        self.view_number
    }

    /// The stake at which the votes become a certificate.
    pub fn success_threshold(&self) -> (threshold: u64)
        ensures
            threshold == self@.threshold,
    {
        self.success_threshold
    }

    /// The stake of the votes gathered so far. It is below the threshold.
    pub fn stake_casted(&self) -> (stake: u64)
        ensures
            stake == self@.stake(),
            stake < self@.threshold,
    {
        proof {
            use_type_invariant(self);
        }
        self.stake_casted
    }

    /// The number of voters whose votes were gathered so far.
    pub fn len(&self) -> (n: usize)
        ensures
            n == self@.records.len(),
    {
        self.signatures.len()
    }

    /// Whether a vote of this voter was gathered.
    pub fn contains_key(&self, key: &EncodedPublicKey) -> (found: bool)
        ensures
            found == !self@.admits(key@),
    {
        self.signatures.contains_key(key)
    }

    /// Takes in one vote, whatever it is about.
    ///
    /// A voter that was counted before is not counted again: the accumulator
    /// comes back as it was. Else the vote is recorded under the voter's key
    /// and its weight is added to the stake. If the stake then reaches the
    /// threshold, the signatures come back in place of the accumulator.
    fn record(self, key: EncodedPublicKey, signature: EncodedSignature, token: T) -> (outcome: Either<Self, SignatureMap<T>>)
        ensures
            outcome_view(outcome) == self@.after(VoteRecord { key: key@, signature: signature@, token }),
    {
        proof {
            use_type_invariant(&self);
            lemma_total_weight_push(
                self.signatures@,
                VoteRecord { key: key@, signature: signature@, token },
            );
        }
        let count = token.vote_count();
        let VoteAccumulator { data, view_number, success_threshold, stake_casted, signatures } = self;
        let mut signatures = signatures;
        let inserted = signatures.insert(key, signature, token);
        if !inserted {
            return Either::Left(
                VoteAccumulator { data, view_number, success_threshold, stake_casted, signatures },
            );
        }
        match stake_casted.checked_add(count) {
            Some(stake) => {
                if stake >= success_threshold {
                    Either::Right(signatures)
                } else {
                    Either::Left(
                        VoteAccumulator {
                            data,
                            view_number,
                            success_threshold,
                            stake_casted: stake,
                            signatures,
                        },
                    )
                }
            },
            None => Either::Right(signatures),
        }
    }

    /// Takes in one vote on a commitment.
    ///
    /// The vote is left out, and the accumulator comes back as it was, if
    /// the accumulator gathers votes on something else or the voter was
    /// counted before. Else the vote is recorded under the voter's key and
    /// its weight is added to the stake; if the stake then reaches the
    /// threshold, the signatures of the certificate come back in place of
    /// the accumulator.
    pub fn append(
        self,
        key: EncodedPublicKey,
        signature: EncodedSignature,
        token: T,
        commitment: Commitment,
    ) -> (outcome: Either<Self, SignatureMap<T>>)
        ensures
            outcome_view(outcome) == if self@.data.commitment() == Some(commitment) {
                self@.after(VoteRecord { key: key@, signature: signature@, token })
            } else {
                Either::Left(self@)
            },
    {
        let about = match self.data {
            VoteData::DA(c) => c.same_as(&commitment),
            VoteData::Yes(c) => c.same_as(&commitment),
            VoteData::No(c) => c.same_as(&commitment),
            VoteData::Timeout(_) => false,
        };
        if about {
            self.record(key, signature, token)
        } else {
            Either::Left(self)
        }
    }

    /// Takes in one vote that a view timed out.
    ///
    /// The vote is left out, and the accumulator comes back as it was, if
    /// the accumulator gathers votes on something else than the timeout of
    /// `view_number` or the voter was counted before. Else as [`Self::append`].
    pub fn append_timeout(
        self,
        key: EncodedPublicKey,
        signature: EncodedSignature,
        token: T,
        view_number: ViewNumber,
    ) -> (outcome: Either<Self, SignatureMap<T>>)
        ensures
            outcome_view(outcome) == if self@.data == VoteData::Timeout(view_number) {
                self@.after(VoteRecord { key: key@, signature: signature@, token })
            } else {
                Either::Left(self@)
            },
    {
        let about = match self.data {
            VoteData::Timeout(v) => v == view_number,
            _ => false,
        };
        if about {
            self.record(key, signature, token)
        } else {
            Either::Left(self)
        }
    }
}

} // verus!
