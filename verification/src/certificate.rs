//! Certificates: the votes of enough stake on one thing, kept together.

use vstd::prelude::*;
use crate::data::{Commitment, ViewNumber, GENESIS_VIEW};
use crate::election::VoteToken;
use crate::signature_key::{EncodedPublicKey, EncodedSignature};

verus! {

/// One voter's part of a certificate: who voted, the signature, and the
/// token that gives the vote its weight.
#[derive(Debug)]
pub struct SignedVote<T> {
    pub key: EncodedPublicKey,
    pub signature: EncodedSignature,
    pub token: T,
}

/// The model of a [`SignedVote`]: the same three parts, with byte strings as sequences.
pub ghost struct VoteRecord<T> {
    pub key: Seq<u8>,
    pub signature: Seq<u8>,
    pub token: T,
}

impl<T> View for SignedVote<T> {
    type V = VoteRecord<T>;

    open spec fn view(&self) -> VoteRecord<T> {
        VoteRecord { key: self.key@, signature: self.signature@, token: self.token }
    }
}

/// Whether some record is under `key`.
pub open spec fn has_key<T>(records: Seq<VoteRecord<T>>, key: Seq<u8>) -> bool {
    exists|i: int| 0 <= i < records.len() && #[trigger] records[i].key == key
}

/// Whether no two records are under the same key.
pub open spec fn keys_distinct<T>(records: Seq<VoteRecord<T>>) -> bool {
    forall|i: int, j: int|
        0 <= i < j < records.len() ==> #[trigger] records[i].key != #[trigger] records[j].key
}

/// The sum of the weights that the tokens of `records` claim.
pub open spec fn total_weight<T: VoteToken>(records: Seq<VoteRecord<T>>) -> nat
    decreases records.len(),
{
    if records.len() == 0 {
        0
    } else {
        total_weight(records.drop_last()) + records.last().token.weight()
    }
}

/// One more record adds its weight to the total.
pub proof fn lemma_total_weight_push<T: VoteToken>(records: Seq<VoteRecord<T>>, record: VoteRecord<T>)
    ensures
        total_weight(records.push(record)) == total_weight(records) + record.token.weight(),
{
    assert(records.push(record).drop_last() =~= records);
}

/// The signatures of a certificate, one for each voter: a map from the
/// voter's key to the signature and token, kept in the order of arrival.
#[derive(Debug)]
pub struct SignatureMap<T> {
    entries: Vec<SignedVote<T>>,
}

impl<T> View for SignatureMap<T> {
    type V = Seq<VoteRecord<T>>;

    closed spec fn view(&self) -> Seq<VoteRecord<T>> {
        Seq::new(self.entries@.len(), |i: int| self.entries@[i]@)
    }
}

impl<T> SignatureMap<T> {
    #[verifier::type_invariant]
    spec fn distinct(self) -> bool {
        keys_distinct(self@)
    }

    /// A map without signatures.
    pub fn new() -> (map: Self)
        ensures
            map@ == Seq::<VoteRecord<T>>::empty(),
    {
        let map = SignatureMap { entries: Vec::new() };
        assert(map@ =~= Seq::<VoteRecord<T>>::empty());
        map
    }

    /// The number of voters. No voter occurs twice.
    pub fn len(&self) -> (n: usize)
        ensures
            n == self@.len(),
            keys_distinct(self@),
    {
        proof {
            use_type_invariant(self);
        }
        self.entries.len()
    }

    /// The vote at a place in the order of arrival.
    pub fn get(&self, index: usize) -> (vote: &SignedVote<T>)
        requires
            index < self@.len(),
        ensures
            vote@ == self@[index as int],
    {
        &self.entries[index]
    }

    /// Whether a voter has a signature in the map.
    pub fn contains_key(&self, key: &EncodedPublicKey) -> (found: bool)
        ensures
            found == has_key(self@, key@),
    {
        let mut i: usize = 0;
        while i < self.entries.len()
            invariant
                i <= self.entries@.len(),
                forall|j: int| 0 <= j < i ==> (#[trigger] self@[j]).key != key@,
            decreases self.entries@.len() - i,
        {
            if self.entries[i].key.same_as(key) {
                assert(self@[i as int].key == key@);
                return true;
            }
            i += 1;
        }
        false
    }

    /// Records a vote under the voter's key. A voter that is in the map
    /// already keeps the vote it has, and the answer is `false`.
    pub fn insert(&mut self, key: EncodedPublicKey, signature: EncodedSignature, token: T) -> (inserted: bool)
        ensures
            inserted == !has_key(old(self)@, key@),
            inserted ==> final(self)@ == old(self)@.push(
                VoteRecord { key: key@, signature: signature@, token },
            ),
            !inserted ==> final(self)@ == old(self)@,
    {
        if self.contains_key(&key) {
            return false;
        }
        proof {
            use_type_invariant(&*self);
        }
        let ghost before = self@;
        let ghost record = VoteRecord { key: key@, signature: signature@, token };
        let mut entries: Vec<SignedVote<T>> = Vec::new();
        assert(Seq::new(entries@.len(), |i: int| entries@[i]@) =~= Seq::<VoteRecord<T>>::empty());
        core::mem::swap(&mut entries, &mut self.entries);
        entries.push(SignedVote { key, signature, token });
        assert(Seq::new(entries@.len(), |i: int| entries@[i]@) =~= before.push(record));
        core::mem::swap(&mut entries, &mut self.entries);
        true
    }
}

impl<T: VoteToken> Clone for SignatureMap<T> {
    /// A copy with the same votes in the same order.
    fn clone(&self) -> (copy: Self)
        ensures
            copy@ == self@,
    {
        proof {
            use_type_invariant(self);
        }
        let mut entries: Vec<SignedVote<T>> = Vec::new();
        let mut i: usize = 0;
        while i < self.entries.len()
            invariant
                i <= self.entries@.len(),
                entries@.len() == i,
                forall|j: int| 0 <= j < i ==> (#[trigger] entries@[j])@ == self.entries@[j]@,
            decreases self.entries@.len() - i,
        {
            let vote = &self.entries[i];
            let token = vote.token.clone();
            proof {
                T::lemma_clone_is_exact(vote.token, token);
            }
            entries.push(SignedVote { key: vote.key.clone(), signature: vote.signature.clone(), token });
            i += 1;
        }
        assert(Seq::new(entries@.len(), |i: int| entries@[i]@) =~= self@);
        SignatureMap { entries }
    }
}

/// A certificate: the view and the commitment that the votes are about, and
/// the votes themselves.
pub trait SignedCertificate<T: VoteToken>: Sized {
    /// The view that the certificate is for.
    spec fn certified_view(&self) -> ViewNumber;

    /// The commitment that the certificate is for.
    spec fn certified_commitment(&self) -> Commitment;

    /// The votes that the certificate holds.
    spec fn records(&self) -> Seq<VoteRecord<T>>;

    /// Whether the certificate stands at the start of the chain, where no
    /// votes are asked for.
    spec fn genesis_flag(&self) -> bool;

    /// Build a certificate from the signatures, the view and the commitment.
    fn from_signatures_and_commitment(
        view_number: ViewNumber,
        signatures: SignatureMap<T>,
        commit: Commitment,
    ) -> (certificate: Self)
        ensures
            certificate.certified_view() == view_number,
            certificate.certified_commitment() == commit,
            certificate.records() == signatures@,
            !certificate.genesis_flag(),
    ;

    /// Get the view number.
    fn view_number(&self) -> (view_number: ViewNumber)
        ensures
            view_number == self.certified_view(),
    ;

    /// Get signatures.
    fn signatures(&self) -> (signatures: SignatureMap<T>)
        ensures
            signatures@ == self.records(),
    ;

    /// Get the commitment.
    fn leaf_commitment(&self) -> (commitment: Commitment)
        ensures
            commitment == self.certified_commitment(),
    ;

    /// Set the commitment. Nothing else changes.
    fn set_leaf_commitment(&mut self, commitment: Commitment)
        ensures
            final(self).certified_commitment() == commitment,
            final(self).certified_view() == old(self).certified_view(),
            final(self).records() == old(self).records(),
            final(self).genesis_flag() == old(self).genesis_flag(),
    ;

    /// Get whether the certificate is for the genesis block.
    fn is_genesis(&self) -> (genesis: bool)
        ensures
            genesis == self.genesis_flag(),
    ;

    /// The certificate at the start of the chain: the genesis view, no
    /// votes, and the commitment of all zero bytes.
    fn genesis() -> (certificate: Self)
        ensures
            certificate.genesis_flag(),
            certificate.certified_view() == GENESIS_VIEW,
            certificate.certified_commitment()@ == Seq::new(32, |i: int| 0u8),
            certificate.records() == Seq::<VoteRecord<T>>::empty(),
    ;
}

/// The votes of a quorum that accept one leaf in one view.
#[derive(Debug)]
pub struct QuorumCertificate<T> {
    /// The leaf that the quorum accepted.
    pub leaf_commitment: Commitment,
    /// The view in which it did.
    pub view_number: ViewNumber,
    /// The votes.
    pub signatures: SignatureMap<T>,
    /// Set on the certificate that starts the chain.
    pub genesis: bool,
}

/// The votes of the data-availability committee that say one block's
/// payload can be retrieved.
#[derive(Debug)]
pub struct DACertificate<T> {
    /// The view that the block was proposed in.
    pub view_number: ViewNumber,
    /// The votes.
    pub signatures: SignatureMap<T>,
    /// The block.
    pub block_commitment: Commitment,
    /// Set on the certificate that starts the chain.
    pub genesis: bool,
}

/// The votes of a quorum that one view ended without a decision.
#[derive(Debug)]
pub struct TimeoutCertificate<T> {
    /// The view that timed out.
    pub view_number: ViewNumber,
    /// The votes.
    pub signatures: SignatureMap<T>,
}

/// The model of a certificate.
pub ghost struct CertificateRecord<T> {
    /// The view that the certificate is for.
    pub view_number: ViewNumber,
    /// The commitment that the certificate is for.
    pub commitment: Commitment,
    /// The votes.
    pub records: Seq<VoteRecord<T>>,
    /// Whether the certificate starts the chain.
    pub genesis: bool,
}

impl<T> View for QuorumCertificate<T> {
    type V = CertificateRecord<T>;

    open spec fn view(&self) -> CertificateRecord<T> {
        CertificateRecord {
            view_number: self.view_number,
            commitment: self.leaf_commitment,
            records: self.signatures@,
            genesis: self.genesis,
        }
    }
}

impl<T> View for DACertificate<T> {
    type V = CertificateRecord<T>;

    open spec fn view(&self) -> CertificateRecord<T> {
        CertificateRecord {
            view_number: self.view_number,
            commitment: self.block_commitment,
            records: self.signatures@,
            genesis: self.genesis,
        }
    }
}

impl<T: VoteToken> Clone for QuorumCertificate<T> {
    /// A copy with the same view, commitment and votes.
    fn clone(&self) -> (copy: Self)
        ensures
            copy@ == self@,
    {
        QuorumCertificate {
            leaf_commitment: self.leaf_commitment,
            view_number: self.view_number,
            signatures: self.signatures.clone(),
            genesis: self.genesis,
        }
    }
}

impl<T: VoteToken> Clone for DACertificate<T> {
    /// A copy with the same view, commitment and votes.
    fn clone(&self) -> (copy: Self)
        ensures
            copy@ == self@,
    {
        DACertificate {
            view_number: self.view_number,
            signatures: self.signatures.clone(),
            block_commitment: self.block_commitment,
            genesis: self.genesis,
        }
    }
}

/// The commitment of all zero bytes.
pub fn zero_commitment() -> (commitment: Commitment)
    ensures
        commitment@ == Seq::new(32, |i: int| 0u8),
{
    let commitment = Commitment { bytes: [0u8; 32] };
    assert(commitment@ =~= Seq::new(32, |i: int| 0u8));
    commitment
}

impl<T: VoteToken> SignedCertificate<T> for QuorumCertificate<T> {
    open spec fn certified_view(&self) -> ViewNumber {
        self.view_number
    }

    open spec fn certified_commitment(&self) -> Commitment {
        self.leaf_commitment
    }

    open spec fn records(&self) -> Seq<VoteRecord<T>> {
        self.signatures@
    }

    open spec fn genesis_flag(&self) -> bool {
        self.genesis
    }

    fn from_signatures_and_commitment(
        view_number: ViewNumber,
        signatures: SignatureMap<T>,
        commit: Commitment,
    ) -> (certificate: Self) {
        QuorumCertificate { leaf_commitment: commit, view_number, signatures, genesis: false }
    }

    fn view_number(&self) -> (view_number: ViewNumber) {
        self.view_number
    }

    fn signatures(&self) -> (signatures: SignatureMap<T>) {
        self.signatures.clone()
    }

    fn leaf_commitment(&self) -> (commitment: Commitment) {
        self.leaf_commitment
    }

    fn set_leaf_commitment(&mut self, commitment: Commitment) {
        self.leaf_commitment = commitment;
    }

    fn is_genesis(&self) -> (genesis: bool) {
        self.genesis
    }

    fn genesis() -> (certificate: Self) {
        QuorumCertificate {
            leaf_commitment: zero_commitment(),
            view_number: GENESIS_VIEW,
            signatures: SignatureMap::new(),
            genesis: true,
        }
    }
}

impl<T: VoteToken> SignedCertificate<T> for DACertificate<T> {
    open spec fn certified_view(&self) -> ViewNumber {
        self.view_number
    }

    open spec fn certified_commitment(&self) -> Commitment {
        self.block_commitment
    }

    open spec fn records(&self) -> Seq<VoteRecord<T>> {
        self.signatures@
    }

    open spec fn genesis_flag(&self) -> bool {
        self.genesis
    }

    fn from_signatures_and_commitment(
        view_number: ViewNumber,
        signatures: SignatureMap<T>,
        commit: Commitment,
    ) -> (certificate: Self) {
        DACertificate { view_number, signatures, block_commitment: commit, genesis: false }
    }

    fn view_number(&self) -> (view_number: ViewNumber) {
        self.view_number
    }

    fn signatures(&self) -> (signatures: SignatureMap<T>) {
        self.signatures.clone()
    }

    fn leaf_commitment(&self) -> (commitment: Commitment) {
        self.block_commitment
    }

    fn set_leaf_commitment(&mut self, commitment: Commitment) {
        self.block_commitment = commitment;
    }

    fn is_genesis(&self) -> (genesis: bool) {
        self.genesis
    }

    fn genesis() -> (certificate: Self) {
        DACertificate {
            view_number: GENESIS_VIEW,
            signatures: SignatureMap::new(),
            block_commitment: zero_commitment(),
            genesis: true,
        }
    }
}

} // verus!
