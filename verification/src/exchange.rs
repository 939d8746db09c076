//! The two exchanges. Each binds a membership, a network and this node's
//! keys, and signs, checks and gathers the votes of one committee: the
//! quorum votes on leaves, the data-availability committee on blocks.

use vstd::prelude::*;
use either::Either;
use crate::certificate::{keys_distinct, total_weight, CertificateRecord, DACertificate, QuorumCertificate, SignatureMap, SignedCertificate, TimeoutCertificate, VoteRecord};
use crate::data::{Commitment, DAProposal, ValidatingProposal, ViewNumber, VoteData, GENESIS_VIEW};
use crate::election::{Checked, ElectionError, Membership, VoteToken};
use crate::message::ConsensusMessage;
use crate::signature_key::{lemma_encoding_is_injective, EncodedPublicKey, EncodedSignature, SignatureKey};
use crate::vote::{AccumulatorState, DAVote, QuorumVote, TimeoutVote, VoteAccumulator, YesOrNoVote};

verus! {

/// Whether a vote counts: the key reads as a key of the scheme, the
/// signature is one over the canonical bytes of `data` under that key, and
/// the membership finds the token valid for that key in that view.
pub open spec fn valid_vote<M: Membership>(
    membership: &M,
    key: Seq<u8>,
    signature: Seq<u8>,
    data: VoteData,
    view_number: ViewNumber,
    token: Checked<M::VoteTokenType>,
) -> bool {
    match M::SignatureKey::decoding(key) {
        Some(k) => k.accepts(signature, data.encoding()) && (membership.validated_token(
            view_number,
            k,
            token,
        ) matches Ok(Checked::Valid(_))),
        None => false,
    }
}

/// Whether each of the votes counts as a vote on `data` in the view.
pub open spec fn valid_votes<M: Membership>(
    membership: &M,
    records: Seq<VoteRecord<M::VoteTokenType>>,
    data: VoteData,
    view_number: ViewNumber,
) -> bool {
    forall|i: int|
        0 <= i < records.len() ==> valid_vote(
            membership,
            (#[trigger] records[i]).key,
            records[i].signature,
            data,
            view_number,
            Checked::Unchecked(records[i].token),
        )
}

/// Whether the votes make a quorum on `data` in the view: no voter occurs
/// twice, each vote counts, and the stake of the votes reaches the
/// threshold of the membership.
pub open spec fn quorum_of_votes<M: Membership>(
    membership: &M,
    records: Seq<VoteRecord<M::VoteTokenType>>,
    data: VoteData,
    view_number: ViewNumber,
) -> bool {
    &&& keys_distinct(records)
    &&& valid_votes(membership, records, data, view_number)
    &&& total_weight(records) >= membership.success_threshold()
}

/// Checks one vote. See [`valid_vote`].
pub fn check_vote<M: Membership>(
    membership: &M,
    encoded_key: &EncodedPublicKey,
    encoded_signature: &EncodedSignature,
    data: VoteData,
    view_number: ViewNumber,
    vote_token: Checked<M::VoteTokenType>,
) -> (ok: bool)
    ensures
        ok == valid_vote(membership, encoded_key@, encoded_signature@, data, view_number, vote_token),
{
    match M::SignatureKey::from_bytes(encoded_key) {
        Some(key) => {
            let bytes = data.as_bytes();
            let is_valid_signature = key.validate(encoded_signature, bytes.as_slice());
            let is_valid_vote_token = match membership.validate_vote_token(view_number, key, vote_token) {
                Ok(Checked::Valid(_)) => true,
                _ => false,
            };
            is_valid_signature && is_valid_vote_token
        },
        None => false,
    }
}

/// Checks the votes of a certificate. See [`quorum_of_votes`].
pub fn check_quorum<M: Membership>(
    membership: &M,
    signatures: &SignatureMap<M::VoteTokenType>,
    data: VoteData,
    view_number: ViewNumber,
) -> (ok: bool)
    ensures
        ok == quorum_of_votes(membership, signatures@, data, view_number),
{
    let threshold = membership.threshold();
    let n = signatures.len();
    let mut stake: u64 = 0;
    let mut i: usize = 0;
    while i < n
        invariant
            i <= n,
            n == signatures@.len(),
            keys_distinct(signatures@),
            valid_votes(membership, signatures@.take(i as int), data, view_number),
            stake == if total_weight(signatures@.take(i as int)) <= u64::MAX {
                total_weight(signatures@.take(i as int))
            } else {
                u64::MAX as nat
            },
        decreases n - i,
    {
        let vote = signatures.get(i);
        let token = vote.token.clone();
        proof {
            M::VoteTokenType::lemma_clone_is_exact(vote.token, token);
        }
        let count = token.vote_count();
        if !check_vote(membership, &vote.key, &vote.signature, data, view_number, Checked::Unchecked(token)) {
            return false;
        }
        proof {
            let next = signatures@.take(i + 1);
            assert(next.drop_last() =~= signatures@.take(i as int));
            assert(next.last() == signatures@[i as int]);
            assert forall|j: int| 0 <= j < next.len() implies valid_vote(
                membership,
                (#[trigger] next[j]).key,
                next[j].signature,
                data,
                view_number,
                Checked::Unchecked(next[j].token),
            ) by {
                if j < i {
                    assert(next[j] == signatures@.take(i as int)[j]);
                }
            }
        }
        stake = match stake.checked_add(count) {
            Some(sum) => sum,
            None => u64::MAX,
        };
        i += 1;
    }
    assert(signatures@.take(n as int) =~= signatures@);
    stake >= threshold
}

/// Whether a certificate with this content is accepted for votes on
/// `data`: it is the genesis certificate, or it is for the commitment of
/// `data` and its votes make a quorum on `data` in its view.
pub open spec fn certificate_accepted<M: Membership>(
    membership: &M,
    certificate: CertificateRecord<M::VoteTokenType>,
    data: VoteData,
) -> bool {
    ||| certificate.genesis && certificate.view_number == GENESIS_VIEW
    ||| data.commitment() == Some(certificate.commitment) && quorum_of_votes(
        membership,
        certificate.records,
        data,
        certificate.view_number,
    )
}

/// Whether a certificate is accepted for votes on `data`. See [`certificate_accepted`].
pub open spec fn valid_certificate<M: Membership, C: SignedCertificate<M::VoteTokenType>>(
    membership: &M,
    certificate: &C,
    data: VoteData,
) -> bool {
    certificate_accepted(
        membership,
        CertificateRecord {
            view_number: certificate.certified_view(),
            commitment: certificate.certified_commitment(),
            records: certificate.records(),
            genesis: certificate.genesis_flag(),
        },
        data,
    )
}

/// A certificate that is accepted, and is not the one that starts the
/// chain, holds votes of distinct voters whose stake reaches the threshold,
/// each with a signature that verifies and a token that is valid.
pub proof fn lemma_accepted_certificate_has_quorum<M: Membership>(
    membership: &M,
    certificate: CertificateRecord<M::VoteTokenType>,
    data: VoteData,
)
    requires
        certificate_accepted(membership, certificate, data),
        !(certificate.genesis && certificate.view_number == GENESIS_VIEW),
    ensures
        data.commitment() == Some(certificate.commitment),
        keys_distinct(certificate.records),
        total_weight(certificate.records) >= membership.success_threshold(),
        forall|i: int|
            0 <= i < certificate.records.len() ==> valid_vote(
                membership,
                (#[trigger] certificate.records[i]).key,
                certificate.records[i].signature,
                data,
                certificate.view_number,
                Checked::Unchecked(certificate.records[i].token),
            ),
{
}

/// Whether an accumulator gathers votes for a membership: its threshold is
/// no lower than the membership's, no voter occurs twice, and each vote
/// gathered so far counts.
pub open spec fn gathers_valid_votes<M: Membership>(
    membership: &M,
    accumulator: AccumulatorState<M::VoteTokenType>,
) -> bool {
    &&& accumulator.threshold >= membership.success_threshold()
    &&& keys_distinct(accumulator.records)
    &&& valid_votes(membership, accumulator.records, accumulator.data, accumulator.view_number)
}

/// What becomes of an accumulator when an exchange is handed a vote on
/// `data` for `view_number`. A vote for another view, on something else
/// than the accumulator gathers, or one that does not count, changes
/// nothing. Else the accumulator takes the vote in.
pub open spec fn accumulated<M: Membership>(
    membership: &M,
    key: Seq<u8>,
    signature: Seq<u8>,
    data: VoteData,
    token: M::VoteTokenType,
    view_number: ViewNumber,
    accumulator: AccumulatorState<M::VoteTokenType>,
) -> Either<AccumulatorState<M::VoteTokenType>, Seq<VoteRecord<M::VoteTokenType>>> {
    if accumulator.view_number == view_number && accumulator.data == data && valid_vote(
        membership,
        key,
        signature,
        data,
        view_number,
        Checked::Unchecked(token),
    ) {
        accumulator.after(VoteRecord { key, signature, token })
    } else {
        Either::Left(accumulator)
    }
}

/// An accumulator that gathers votes for a membership goes on doing so
/// whatever vote it is handed, and the votes that leave it make a quorum.
pub proof fn lemma_accumulated_votes_are_valid<M: Membership>(
    membership: &M,
    key: Seq<u8>,
    signature: Seq<u8>,
    data: VoteData,
    token: M::VoteTokenType,
    view_number: ViewNumber,
    accumulator: AccumulatorState<M::VoteTokenType>,
)
    requires
        gathers_valid_votes(membership, accumulator),
    ensures
        match accumulated(membership, key, signature, data, token, view_number, accumulator) {
            Either::Left(next) => gathers_valid_votes(membership, next),
            Either::Right(records) => quorum_of_votes(membership, records, data, view_number),
        },
{
    let record = VoteRecord { key, signature, token };
    let next = accumulator.with(record);
    if accumulator.view_number == view_number && accumulator.data == data && valid_vote(
        membership,
        key,
        signature,
        data,
        view_number,
        Checked::Unchecked(token),
    ) && accumulator.admits(key) {
        assert forall|i: int, j: int| 0 <= i < j < next.records.len() implies #[trigger] next.records[i].key
            != #[trigger] next.records[j].key by {
            if j == accumulator.records.len() {
                assert(accumulator.records[i].key != key);
            }
        }
    }
}

/// Checks a certificate. See [`valid_certificate`].
fn check_certificate<M: Membership, C: SignedCertificate<M::VoteTokenType>>(
    membership: &M,
    certificate: &C,
    signatures: &SignatureMap<M::VoteTokenType>,
    data: VoteData,
) -> (ok: bool)
    requires
        signatures@ == certificate.records(),
    ensures
        ok == valid_certificate(membership, certificate, data),
{
    if certificate.is_genesis() && certificate.view_number() == GENESIS_VIEW {
        return true;
    }
    let about = match data {
        VoteData::DA(c) => c.same_as(&certificate.leaf_commitment()),
        VoteData::Yes(c) => c.same_as(&certificate.leaf_commitment()),
        VoteData::No(c) => c.same_as(&certificate.leaf_commitment()),
        VoteData::Timeout(_) => false,
    };
    about && check_quorum(membership, signatures, data, certificate.view_number())
}

/// Signs the canonical bytes of `data` and puts this node's key beside the
/// signature.
pub fn sign_vote<K: SignatureKey>(public_key: &K, private_key: &K::PrivateKey, data: VoteData) -> (signed: (
    EncodedPublicKey,
    EncodedSignature,
))
    ensures
        signed_by(*public_key, *private_key, data.encoding(), signed),
{
    let bytes = data.as_bytes();
    let signature = K::sign(private_key, bytes.as_slice());
    (public_key.to_bytes(), signature)
}

/// Whether `signed` is the wire form of `public_key` beside a signature
/// that `private_key` gives over `bytes`.
pub open spec fn signed_by<K: SignatureKey>(
    public_key: K,
    private_key: K::PrivateKey,
    bytes: Seq<u8>,
    signed: (EncodedPublicKey, EncodedSignature),
) -> bool {
    &&& signed.0@ == public_key.encoding()
    &&& K::signs(&private_key, bytes, signed.1@)
}

/// A vote that a node signed with its own key pair counts just when the
/// election finds the token valid for the node in the view: the key reads
/// back and the signature verifies.
pub proof fn lemma_own_vote_counts<M: Membership>(
    membership: &M,
    private_key: <M::SignatureKey as SignatureKey>::PrivateKey,
    data: VoteData,
    view_number: ViewNumber,
    token: M::VoteTokenType,
    signed: (EncodedPublicKey, EncodedSignature),
)
    requires
        signed_by(M::SignatureKey::public_of(&private_key), private_key, data.encoding(), signed),
    ensures
        valid_vote(membership, signed.0@, signed.1@, data, view_number, Checked::Unchecked(token)) == (
        membership.validated_token(
            view_number,
            M::SignatureKey::public_of(&private_key),
            Checked::Unchecked(token),
        ) matches Ok(Checked::Valid(_))),
{
    let key = M::SignatureKey::public_of(&private_key);
    M::SignatureKey::lemma_decoding_inverts_encoding(key);
    M::SignatureKey::lemma_signature_verifies(private_key, data.encoding(), signed.1@);
}

/// Hands a vote on `data` to an accumulator if the vote counts. See [`accumulated`].
fn accumulate<M: Membership>(
    membership: &M,
    encoded_key: &EncodedPublicKey,
    encoded_signature: &EncodedSignature,
    data: VoteData,
    vote_token: M::VoteTokenType,
    view_number: ViewNumber,
    accumulator: VoteAccumulator<M::VoteTokenType>,
) -> (outcome: Either<VoteAccumulator<M::VoteTokenType>, SignatureMap<M::VoteTokenType>>)
    ensures
        crate::vote::outcome_view(outcome) == accumulated(
            membership,
            encoded_key@,
            encoded_signature@,
            data,
            vote_token,
            view_number,
            accumulator@,
        ),
{
    if accumulator.view_number() != view_number || !accumulator.data().same_as(&data) {
        return Either::Left(accumulator);
    }
    let token = vote_token.clone();
    proof {
        M::VoteTokenType::lemma_clone_is_exact(vote_token, token);
    }
    if !check_vote(membership, encoded_key, encoded_signature, data, view_number, Checked::Unchecked(token)) {
        return Either::Left(accumulator);
    }
    match data {
        VoteData::DA(c) => accumulator.append(encoded_key.clone(), encoded_signature.clone(), vote_token, c),
        VoteData::Yes(c) => accumulator.append(encoded_key.clone(), encoded_signature.clone(), vote_token, c),
        VoteData::No(c) => accumulator.append(encoded_key.clone(), encoded_signature.clone(), vote_token, c),
        VoteData::Timeout(v) => accumulator.append_timeout(
            encoded_key.clone(),
            encoded_signature.clone(),
            vote_token,
            v,
        ),
    }
}

/// What an exchange offers whichever committee it serves.
pub trait ConsensusExchange: Sized {
    /// What the leader proposes to this committee.
    type Proposal;

    /// What the members of this committee vote with.
    type Vote;

    /// What the votes of this committee become.
    type Certificate: SignedCertificate<<Self::Membership as Membership>::VoteTokenType>;

    /// The members of this committee.
    type Membership: Membership;

    /// The network that reaches them.
    type Networking;

    /// The membership of the exchange.
    spec fn election(&self) -> Self::Membership;

    /// The network of the exchange.
    spec fn channel(&self) -> Self::Networking;

    /// The public key of this node.
    spec fn own_key(&self) -> <Self::Membership as Membership>::SignatureKey;

    /// The private key of this node.
    spec fn own_private_key(&self) -> <<Self::Membership as Membership>::SignatureKey as SignatureKey>::PrivateKey;

    /// What a member of this committee signs when it votes for `commitment`.
    spec fn vote_data(commitment: Commitment) -> VoteData;

    /// A vote for a commitment is about that commitment.
    proof fn lemma_vote_data_commits(commitment: Commitment)
        ensures
            Self::vote_data(commitment).commitment() == Some(commitment),
    ;

    /// Binds the election that `keys` and `config` give to a network and to
    /// the key pair of this node.
    fn create(
        keys: Vec<<Self::Membership as Membership>::SignatureKey>,
        config: <Self::Membership as Membership>::ElectionConfigType,
        network: Self::Networking,
        public_key: <Self::Membership as Membership>::SignatureKey,
        private_key: <<Self::Membership as Membership>::SignatureKey as SignatureKey>::PrivateKey,
    ) -> (exchange: Self)
        requires
            keys@.len() >= 1,
        ensures
            Self::Membership::elects(keys@, config, exchange.election()),
            exchange.channel() == network,
            exchange.own_key() == public_key,
            exchange.own_private_key() == private_key,
    ;

    /// The network of the exchange.
    fn network(&self) -> (network: &Self::Networking)
        ensures
            *network == self.channel(),
    ;

    /// The leader of a view.
    fn get_leader(&self, view_number: ViewNumber) -> (leader: <Self::Membership as Membership>::SignatureKey)
        ensures
            leader == self.election().leader(view_number),
    {
        self.membership().get_leader(view_number)
    }

    /// Whether this node leads a view.
    fn is_leader(&self, view_number: ViewNumber) -> (leads: bool)
        ensures
            leads == (self.election().leader(view_number) == self.own_key()),
    {
        let leader = self.get_leader(view_number).to_bytes();
        let own = self.public_key().to_bytes();
        proof {
            if leader@ == own@ {
                lemma_encoding_is_injective(self.election().leader(view_number), self.own_key());
            }
        }
        leader.same_as(&own)
    }

    /// The stake that a certificate of this committee needs. It is never zero.
    fn threshold(&self) -> (threshold: u64)
        ensures
            threshold == self.election().success_threshold(),
            threshold >= 1,
    {
        self.membership().threshold()
    }

    /// Attempts to generate a vote token for this node.
    fn make_vote_token(&self, view_number: ViewNumber) -> (token: Result<
        Option<<Self::Membership as Membership>::VoteTokenType>,
        ElectionError,
    >)
        ensures
            token == self.election().vote_token(view_number, self.own_private_key()),
    ;

    /// Validate a certificate for `commit`. See [`valid_certificate`].
    fn is_valid_cert(&self, qc: &Self::Certificate, commit: Commitment) -> (ok: bool)
        ensures
            ok == valid_certificate(&self.election(), qc, Self::vote_data(commit)),
    ;

    /// Validate a vote. See [`valid_vote`].
    fn is_valid_vote(
        &self,
        encoded_key: &EncodedPublicKey,
        encoded_signature: &EncodedSignature,
        data: VoteData,
        view_number: ViewNumber,
        vote_token: Checked<<Self::Membership as Membership>::VoteTokenType>,
    ) -> (ok: bool)
        ensures
            ok == valid_vote(
                &self.election(),
                encoded_key@,
                encoded_signature@,
                data,
                view_number,
                vote_token,
            ),
    ;

    /// Add a vote to the accumulating signature. Return the certificate if
    /// the vote brings us over the threshold, else return the accumulator.
    /// See [`accumulated`].
    fn accumulate_vote(
        &self,
        encoded_key: &EncodedPublicKey,
        encoded_signature: &EncodedSignature,
        leaf_commitment: Commitment,
        vote_token: <Self::Membership as Membership>::VoteTokenType,
        view_number: ViewNumber,
        accumlator: VoteAccumulator<<Self::Membership as Membership>::VoteTokenType>,
    ) -> (outcome: Either<
        VoteAccumulator<<Self::Membership as Membership>::VoteTokenType>,
        Self::Certificate,
    >)
        ensures
            match outcome {
                Either::Left(next) => accumulated(
                    &self.election(),
                    encoded_key@,
                    encoded_signature@,
                    Self::vote_data(leaf_commitment),
                    vote_token,
                    view_number,
                    accumlator@,
                ) == Either::<
                    AccumulatorState<<Self::Membership as Membership>::VoteTokenType>,
                    Seq<VoteRecord<<Self::Membership as Membership>::VoteTokenType>>,
                >::Left(next@),
                Either::Right(certificate) => {
                    &&& accumulated(
                        &self.election(),
                        encoded_key@,
                        encoded_signature@,
                        Self::vote_data(leaf_commitment),
                        vote_token,
                        view_number,
                        accumlator@,
                    ) == Either::<
                        AccumulatorState<<Self::Membership as Membership>::VoteTokenType>,
                        Seq<VoteRecord<<Self::Membership as Membership>::VoteTokenType>>,
                    >::Right(certificate.records())
                    &&& certificate.certified_view() == view_number
                    &&& certificate.certified_commitment() == leaf_commitment
                    &&& !certificate.genesis_flag()
                },
            },
    ;

    /// The membership of the exchange.
    fn membership(&self) -> (membership: &Self::Membership)
        ensures
            *membership == self.election(),
    ;

    /// The public key of this node.
    fn public_key(&self) -> (key: &<Self::Membership as Membership>::SignatureKey)
        ensures
            *key == self.own_key(),
    ;
}

/// What the exchange of the data-availability committee offers besides.
pub trait CommitteeExchangeType: ConsensusExchange {
    /// Sign a DA proposal: the signature is over the bytes of the block commitment.
    fn sign_da_proposal(&self, block_commitment: &Commitment) -> (signature: EncodedSignature)
        ensures
            <Self::Membership as Membership>::SignatureKey::signs(
                &self.own_private_key(),
                block_commitment@,
                signature@,
            ),
    ;

    /// Sign a vote on DA proposal.
    ///
    /// The block commitment and the type of the vote (DA) are signed, which
    /// is the minimum amount of information necessary for checking that this
    /// node voted on that block.
    fn sign_da_vote(&self, block_commitment: Commitment) -> (signed: (EncodedPublicKey, EncodedSignature))
        ensures
            signed_by(
                self.own_key(),
                self.own_private_key(),
                VoteData::DA(block_commitment).encoding(),
                signed,
            ),
    ;

    /// Create a message with a vote on DA proposal.
    fn create_da_message(
        &self,
        justify_qc_commitment: Commitment,
        block_commitment: Commitment,
        current_view: ViewNumber,
        vote_token: <Self::Membership as Membership>::VoteTokenType,
    ) -> (message: ConsensusMessage<<Self::Membership as Membership>::VoteTokenType>)
        ensures
            match message {
                ConsensusMessage::DAVote(vote) => {
                    &&& vote.justify_qc_commitment == justify_qc_commitment
                    &&& vote.block_commitment == block_commitment
                    &&& vote.current_view == current_view
                    &&& vote.vote_token == vote_token
                    &&& signed_by(
                        self.own_key(),
                        self.own_private_key(),
                        VoteData::DA(block_commitment).encoding(),
                        vote.signature,
                    )
                },
                _ => false,
            },
    ;
}

/// The exchange of the data-availability committee.
pub struct CommitteeExchange<MEMBERSHIP: Membership, NETWORK> {
    network: NETWORK,
    membership: MEMBERSHIP,
    public_key: MEMBERSHIP::SignatureKey,
    private_key: <MEMBERSHIP::SignatureKey as SignatureKey>::PrivateKey,
}

impl<MEMBERSHIP: Membership, NETWORK> CommitteeExchangeType for CommitteeExchange<MEMBERSHIP, NETWORK> {
    /// Sign a DA proposal.
    fn sign_da_proposal(&self, block_commitment: &Commitment) -> (signature: EncodedSignature) {
        let signature = MEMBERSHIP::SignatureKey::sign(&self.private_key, block_commitment.bytes.as_slice());
        signature
    }

    /// Sign a vote on DA proposal.
    fn sign_da_vote(&self, block_commitment: Commitment) -> (signed: (EncodedPublicKey, EncodedSignature)) {
        sign_vote(&self.public_key, &self.private_key, VoteData::DA(block_commitment))
    }

    /// Create a message with a vote on DA proposal.
    fn create_da_message(
        &self,
        justify_qc_commitment: Commitment,
        block_commitment: Commitment,
        current_view: ViewNumber,
        vote_token: MEMBERSHIP::VoteTokenType,
    ) -> (message: ConsensusMessage<MEMBERSHIP::VoteTokenType>) {
        let signature = self.sign_da_vote(block_commitment);
        ConsensusMessage::DAVote(
            DAVote { justify_qc_commitment, signature, block_commitment, current_view, vote_token },
        )
    }
}

impl<MEMBERSHIP: Membership, NETWORK> ConsensusExchange for CommitteeExchange<MEMBERSHIP, NETWORK> {
    type Proposal = DAProposal;

    type Vote = DAVote<MEMBERSHIP::VoteTokenType>;

    type Certificate = DACertificate<MEMBERSHIP::VoteTokenType>;

    type Membership = MEMBERSHIP;

    type Networking = NETWORK;

    closed spec fn election(&self) -> MEMBERSHIP {
        self.membership
    }

    closed spec fn channel(&self) -> NETWORK {
        self.network
    }

    closed spec fn own_key(&self) -> MEMBERSHIP::SignatureKey {
        self.public_key
    }

    closed spec fn own_private_key(&self) -> <MEMBERSHIP::SignatureKey as SignatureKey>::PrivateKey {
        self.private_key
    }

    open spec fn vote_data(commitment: Commitment) -> VoteData {
        VoteData::DA(commitment)
    }

    proof fn lemma_vote_data_commits(commitment: Commitment) {
    }

    fn create(
        keys: Vec<MEMBERSHIP::SignatureKey>,
        config: MEMBERSHIP::ElectionConfigType,
        network: NETWORK,
        public_key: MEMBERSHIP::SignatureKey,
        private_key: <MEMBERSHIP::SignatureKey as SignatureKey>::PrivateKey,
    ) -> (exchange: Self) {
        let membership = MEMBERSHIP::create_election(keys, config);
        CommitteeExchange { network, membership, public_key, private_key }
    }

    fn network(&self) -> (network: &NETWORK) {
        &self.network
    }

    fn make_vote_token(&self, view_number: ViewNumber) -> (token: Result<
        Option<MEMBERSHIP::VoteTokenType>,
        ElectionError,
    >) {
        self.membership.make_vote_token(view_number, &self.private_key)
    }

    /// Validate a DA certificate.
    fn is_valid_cert(&self, qc: &DACertificate<MEMBERSHIP::VoteTokenType>, commit: Commitment) -> (ok: bool) {
        check_certificate(&self.membership, qc, &qc.signatures, VoteData::DA(commit))
    }

    /// Validate a vote.
    fn is_valid_vote(
        &self,
        encoded_key: &EncodedPublicKey,
        encoded_signature: &EncodedSignature,
        data: VoteData,
        view_number: ViewNumber,
        vote_token: Checked<MEMBERSHIP::VoteTokenType>,
    ) -> (ok: bool) {
        check_vote(&self.membership, encoded_key, encoded_signature, data, view_number, vote_token)
    }

    /// Add a vote to the accumulating signature.
    fn accumulate_vote(
        &self,
        encoded_key: &EncodedPublicKey,
        encoded_signature: &EncodedSignature,
        leaf_commitment: Commitment,
        vote_token: MEMBERSHIP::VoteTokenType,
        view_number: ViewNumber,
        accumlator: VoteAccumulator<MEMBERSHIP::VoteTokenType>,
    ) -> (outcome: Either<
        VoteAccumulator<MEMBERSHIP::VoteTokenType>,
        DACertificate<MEMBERSHIP::VoteTokenType>,
    >) {
        match accumulate(
            &self.membership,
            encoded_key,
            encoded_signature,
            VoteData::DA(leaf_commitment),
            vote_token,
            view_number,
            accumlator,
        ) {
            Either::Left(next) => Either::Left(next),
            Either::Right(signatures) => Either::Right(
                DACertificate::from_signatures_and_commitment(view_number, signatures, leaf_commitment),
            ),
        }
    }

    fn membership(&self) -> (membership: &MEMBERSHIP) {
        &self.membership
    }

    fn public_key(&self) -> (key: &MEMBERSHIP::SignatureKey) {
        &self.public_key
    }
}

/// Whether a proposal comes from the leader of its view: the leaf names the
/// leader as its proposer, and the signature is one over the bytes of the
/// commitment of the leaf under the leader's key.
pub open spec fn valid_proposal<M: Membership>(
    membership: &M,
    proposal: &ValidatingProposal<M::VoteTokenType>,
) -> bool {
    let leader = membership.leader(proposal.leaf.view_number);
    &&& proposal.leaf.proposer_key@ == leader.encoding()
    &&& leader.accepts(proposal.signature@, proposal.leaf.commitment@)
}

/// What the exchange of the quorum offers besides.
pub trait QuorumExchangeType: ConsensusExchange {
    /// Create a message with a positive vote on validating or commitment proposal.
    fn create_yes_message(
        &self,
        justify_qc_commitment: Commitment,
        leaf_commitment: Commitment,
        current_view: ViewNumber,
        vote_token: <Self::Membership as Membership>::VoteTokenType,
    ) -> (message: ConsensusMessage<<Self::Membership as Membership>::VoteTokenType>)
        ensures
            match message {
                ConsensusMessage::Vote(QuorumVote::Yes(vote)) => {
                    &&& vote.justify_qc_commitment == justify_qc_commitment
                    &&& vote.leaf_commitment == leaf_commitment
                    &&& vote.current_view == current_view
                    &&& vote.vote_token == vote_token
                    &&& signed_by(
                        self.own_key(),
                        self.own_private_key(),
                        VoteData::Yes(leaf_commitment).encoding(),
                        vote.signature,
                    )
                },
                _ => false,
            },
    ;

    /// Sign a validating or commitment proposal: the signature is over the
    /// bytes of the leaf commitment.
    fn sign_validating_or_commitment_proposal(&self, leaf_commitment: &Commitment) -> (signature:
        EncodedSignature)
        ensures
            <Self::Membership as Membership>::SignatureKey::signs(
                &self.own_private_key(),
                leaf_commitment@,
                signature@,
            ),
    ;

    /// Sign a positive vote on validating or commitment proposal.
    ///
    /// The leaf commitment and the type of the vote (yes) are signed, which
    /// is the minimum amount of information necessary for any user of the
    /// subsequently constructed QC to check that this node voted `Yes` on
    /// that leaf. The leaf is expected to be reconstructed based on other
    /// information in the yes vote.
    fn sign_yes_vote(&self, leaf_commitment: Commitment) -> (signed: (EncodedPublicKey, EncodedSignature))
        ensures
            signed_by(
                self.own_key(),
                self.own_private_key(),
                VoteData::Yes(leaf_commitment).encoding(),
                signed,
            ),
    ;

    /// Sign a negative vote on validating or commitment proposal.
    ///
    /// The leaf commitment and the type of the vote (no) are signed, which
    /// is the minimum amount of information necessary for any user of the
    /// subsequently constructed QC to check that this node voted `No` on
    /// that leaf.
    fn sign_no_vote(&self, leaf_commitment: Commitment) -> (signed: (EncodedPublicKey, EncodedSignature))
        ensures
            signed_by(
                self.own_key(),
                self.own_private_key(),
                VoteData::No(leaf_commitment).encoding(),
                signed,
            ),
    ;

    /// Sign a timeout vote.
    ///
    /// We only sign the view number, which is the minimum amount of
    /// information necessary for checking that this node timed out on that
    /// view. The certificate that goes with the vote is not signed.
    fn sign_timeout_vote(&self, view_number: ViewNumber) -> (signed: (EncodedPublicKey, EncodedSignature))
        ensures
            signed_by(
                self.own_key(),
                self.own_private_key(),
                VoteData::Timeout(view_number).encoding(),
                signed,
            ),
    ;

    /// Create a message with a negative vote on validating or commitment proposal.
    fn create_no_message(
        &self,
        justify_qc_commitment: Commitment,
        leaf_commitment: Commitment,
        current_view: ViewNumber,
        vote_token: <Self::Membership as Membership>::VoteTokenType,
    ) -> (message: ConsensusMessage<<Self::Membership as Membership>::VoteTokenType>)
        ensures
            match message {
                ConsensusMessage::Vote(QuorumVote::No(vote)) => {
                    &&& vote.justify_qc_commitment == justify_qc_commitment
                    &&& vote.leaf_commitment == leaf_commitment
                    &&& vote.current_view == current_view
                    &&& vote.vote_token == vote_token
                    &&& signed_by(
                        self.own_key(),
                        self.own_private_key(),
                        VoteData::No(leaf_commitment).encoding(),
                        vote.signature,
                    )
                },
                _ => false,
            },
    ;

    /// Create a message with a timeout vote on validating or commitment proposal.
    fn create_timeout_message(
        &self,
        justify_qc: QuorumCertificate<<Self::Membership as Membership>::VoteTokenType>,
        current_view: ViewNumber,
        vote_token: <Self::Membership as Membership>::VoteTokenType,
    ) -> (message: ConsensusMessage<<Self::Membership as Membership>::VoteTokenType>)
        ensures
            match message {
                ConsensusMessage::Vote(QuorumVote::Timeout(vote)) => {
                    &&& vote.justify_qc == justify_qc
                    &&& vote.current_view == current_view
                    &&& vote.vote_token == vote_token
                    &&& signed_by(
                        self.own_key(),
                        self.own_private_key(),
                        VoteData::Timeout(current_view).encoding(),
                        vote.signature,
                    )
                },
                _ => false,
            },
    ;
}

/// The exchange of the quorum.
pub struct QuorumExchange<MEMBERSHIP: Membership, NETWORK> {
    network: NETWORK,
    membership: MEMBERSHIP,
    public_key: MEMBERSHIP::SignatureKey,
    private_key: <MEMBERSHIP::SignatureKey as SignatureKey>::PrivateKey,
}

impl<MEMBERSHIP: Membership, NETWORK> QuorumExchange<MEMBERSHIP, NETWORK> {
    /// Validate a proposal: whether it comes from the leader of its view.
    /// See [`valid_proposal`].
    pub fn is_valid_proposal(&self, proposal: &ValidatingProposal<MEMBERSHIP::VoteTokenType>) -> (ok: bool)
        ensures
            ok == valid_proposal(&self.election(), proposal),
    {
        let leader = self.membership.get_leader(proposal.leaf.view_number);
        let named = leader.to_bytes();
        named.same_as(&proposal.leaf.proposer_key) && leader.validate(
            &proposal.signature,
            proposal.leaf.commitment.bytes.as_slice(),
        )
    }

    /// Validate a timeout certificate: whether its votes make a quorum on
    /// the timeout of its view. See [`quorum_of_votes`].
    pub fn is_valid_timeout_cert(&self, certificate: &TimeoutCertificate<MEMBERSHIP::VoteTokenType>) -> (ok:
        bool)
        ensures
            ok == quorum_of_votes(
                &self.election(),
                certificate.signatures@,
                VoteData::Timeout(certificate.view_number),
                certificate.view_number,
            ),
    {
        check_quorum(
            &self.membership,
            &certificate.signatures,
            VoteData::Timeout(certificate.view_number),
            certificate.view_number,
        )
    }

    /// Add a vote that a view timed out to the accumulating signature.
    /// Return the certificate if the vote brings us over the threshold, else
    /// return the accumulator. See [`accumulated`].
    pub fn accumulate_timeout_vote(
        &self,
        encoded_key: &EncodedPublicKey,
        encoded_signature: &EncodedSignature,
        vote_token: MEMBERSHIP::VoteTokenType,
        view_number: ViewNumber,
        accumulator: VoteAccumulator<MEMBERSHIP::VoteTokenType>,
    ) -> (outcome: Either<
        VoteAccumulator<MEMBERSHIP::VoteTokenType>,
        TimeoutCertificate<MEMBERSHIP::VoteTokenType>,
    >)
        ensures
            match outcome {
                Either::Left(next) => accumulated(
                    &self.election(),
                    encoded_key@,
                    encoded_signature@,
                    VoteData::Timeout(view_number),
                    vote_token,
                    view_number,
                    accumulator@,
                ) == Either::<
                    AccumulatorState<MEMBERSHIP::VoteTokenType>,
                    Seq<VoteRecord<MEMBERSHIP::VoteTokenType>>,
                >::Left(next@),
                Either::Right(certificate) => {
                    &&& accumulated(
                        &self.election(),
                        encoded_key@,
                        encoded_signature@,
                        VoteData::Timeout(view_number),
                        vote_token,
                        view_number,
                        accumulator@,
                    ) == Either::<
                        AccumulatorState<MEMBERSHIP::VoteTokenType>,
                        Seq<VoteRecord<MEMBERSHIP::VoteTokenType>>,
                    >::Right(certificate.signatures@)
                    &&& certificate.view_number == view_number
                },
            },
    {
        match accumulate(
            &self.membership,
            encoded_key,
            encoded_signature,
            VoteData::Timeout(view_number),
            vote_token,
            view_number,
            accumulator,
        ) {
            Either::Left(next) => Either::Left(next),
            Either::Right(signatures) => Either::Right(TimeoutCertificate { view_number, signatures }),
        }
    }
}

impl<MEMBERSHIP: Membership, NETWORK> QuorumExchangeType for QuorumExchange<MEMBERSHIP, NETWORK> {
    /// Create a message with a positive vote on validating or commitment proposal.
    fn create_yes_message(
        &self,
        justify_qc_commitment: Commitment,
        leaf_commitment: Commitment,
        current_view: ViewNumber,
        vote_token: MEMBERSHIP::VoteTokenType,
    ) -> (message: ConsensusMessage<MEMBERSHIP::VoteTokenType>) {
        let signature = self.sign_yes_vote(leaf_commitment);
        ConsensusMessage::Vote(
            QuorumVote::Yes(
                YesOrNoVote { justify_qc_commitment, signature, leaf_commitment, current_view, vote_token },
            ),
        )
    }

    /// Sign a validating or commitment proposal.
    fn sign_validating_or_commitment_proposal(&self, leaf_commitment: &Commitment) -> (signature:
        EncodedSignature) {
        let signature = MEMBERSHIP::SignatureKey::sign(&self.private_key, leaf_commitment.bytes.as_slice());
        signature
    }

    /// Sign a positive vote on validating or commitment proposal.
    fn sign_yes_vote(&self, leaf_commitment: Commitment) -> (signed: (EncodedPublicKey, EncodedSignature)) {
        sign_vote(&self.public_key, &self.private_key, VoteData::Yes(leaf_commitment))
    }

    /// Sign a negative vote on validating or commitment proposal.
    fn sign_no_vote(&self, leaf_commitment: Commitment) -> (signed: (EncodedPublicKey, EncodedSignature)) {
        sign_vote(&self.public_key, &self.private_key, VoteData::No(leaf_commitment))
    }

    /// Sign a timeout vote.
    fn sign_timeout_vote(&self, view_number: ViewNumber) -> (signed: (EncodedPublicKey, EncodedSignature)) {
        sign_vote(&self.public_key, &self.private_key, VoteData::Timeout(view_number))
    }

    /// Create a message with a negative vote on validating or commitment proposal.
    fn create_no_message(
        &self,
        justify_qc_commitment: Commitment,
        leaf_commitment: Commitment,
        current_view: ViewNumber,
        vote_token: MEMBERSHIP::VoteTokenType,
    ) -> (message: ConsensusMessage<MEMBERSHIP::VoteTokenType>) {
        let signature = self.sign_no_vote(leaf_commitment);
        ConsensusMessage::Vote(
            QuorumVote::No(
                YesOrNoVote { justify_qc_commitment, signature, leaf_commitment, current_view, vote_token },
            ),
        )
    }

    /// Create a message with a timeout vote on validating or commitment proposal.
    fn create_timeout_message(
        &self,
        justify_qc: QuorumCertificate<MEMBERSHIP::VoteTokenType>,
        current_view: ViewNumber,
        vote_token: MEMBERSHIP::VoteTokenType,
    ) -> (message: ConsensusMessage<MEMBERSHIP::VoteTokenType>) {
        let signature = self.sign_timeout_vote(current_view);
        ConsensusMessage::Vote(
            QuorumVote::Timeout(TimeoutVote { justify_qc, signature, current_view, vote_token }),
        )
    }
}

impl<MEMBERSHIP: Membership, NETWORK> ConsensusExchange for QuorumExchange<MEMBERSHIP, NETWORK> {
    type Proposal = ValidatingProposal<MEMBERSHIP::VoteTokenType>;

    type Vote = QuorumVote<MEMBERSHIP::VoteTokenType>;

    type Certificate = QuorumCertificate<MEMBERSHIP::VoteTokenType>;

    type Membership = MEMBERSHIP;

    type Networking = NETWORK;

    closed spec fn election(&self) -> MEMBERSHIP {
        self.membership
    }

    closed spec fn channel(&self) -> NETWORK {
        self.network
    }

    closed spec fn own_key(&self) -> MEMBERSHIP::SignatureKey {
        self.public_key
    }

    closed spec fn own_private_key(&self) -> <MEMBERSHIP::SignatureKey as SignatureKey>::PrivateKey {
        self.private_key
    }

    open spec fn vote_data(commitment: Commitment) -> VoteData {
        VoteData::Yes(commitment)
    }

    proof fn lemma_vote_data_commits(commitment: Commitment) {
    }

    fn create(
        keys: Vec<MEMBERSHIP::SignatureKey>,
        config: MEMBERSHIP::ElectionConfigType,
        network: NETWORK,
        public_key: MEMBERSHIP::SignatureKey,
        private_key: <MEMBERSHIP::SignatureKey as SignatureKey>::PrivateKey,
    ) -> (exchange: Self) {
        let membership = MEMBERSHIP::create_election(keys, config);
        QuorumExchange { network, membership, public_key, private_key }
    }

    fn network(&self) -> (network: &NETWORK) {
        &self.network
    }

    fn make_vote_token(&self, view_number: ViewNumber) -> (token: Result<
        Option<MEMBERSHIP::VoteTokenType>,
        ElectionError,
    >) {
        self.membership.make_vote_token(view_number, &self.private_key)
    }

    /// Validate a QC.
    fn is_valid_cert(&self, qc: &QuorumCertificate<MEMBERSHIP::VoteTokenType>, commit: Commitment) -> (ok:
        bool) {
        check_certificate(&self.membership, qc, &qc.signatures, VoteData::Yes(commit))
    }

    /// Validate a vote.
    fn is_valid_vote(
        &self,
        encoded_key: &EncodedPublicKey,
        encoded_signature: &EncodedSignature,
        data: VoteData,
        view_number: ViewNumber,
        vote_token: Checked<MEMBERSHIP::VoteTokenType>,
    ) -> (ok: bool) {
        check_vote(&self.membership, encoded_key, encoded_signature, data, view_number, vote_token)
    }

    /// Add a vote to the accumulating signature.
    fn accumulate_vote(
        &self,
        encoded_key: &EncodedPublicKey,
        encoded_signature: &EncodedSignature,
        leaf_commitment: Commitment,
        vote_token: MEMBERSHIP::VoteTokenType,
        view_number: ViewNumber,
        accumlator: VoteAccumulator<MEMBERSHIP::VoteTokenType>,
    ) -> (outcome: Either<
        VoteAccumulator<MEMBERSHIP::VoteTokenType>,
        QuorumCertificate<MEMBERSHIP::VoteTokenType>,
    >) {
        match accumulate(
            &self.membership,
            encoded_key,
            encoded_signature,
            VoteData::Yes(leaf_commitment),
            vote_token,
            view_number,
            accumlator,
        ) {
            Either::Left(next) => Either::Left(next),
            Either::Right(signatures) => Either::Right(
                QuorumCertificate::from_signatures_and_commitment(view_number, signatures, leaf_commitment),
            ),
        }
    }

    fn membership(&self) -> (membership: &MEMBERSHIP) {
        &self.membership
    }

    fn public_key(&self) -> (key: &MEMBERSHIP::SignatureKey) {
        &self.public_key
    }
}

} // verus!
