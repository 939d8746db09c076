//! What is voted on, and the bytes a voter signs.

use vstd::prelude::*;
use bincode::Options;
use crate::bytes::{le_bytes_u32, le_bytes_u64, le_value_u32, le_value_u64, lemma_le_u32_bytes, lemma_le_u32_value, lemma_le_u64_bytes, lemma_le_u64_value, read_u32, read_u64};
use vstd::slice::slice_subrange;
use crate::certificate::{CertificateRecord, QuorumCertificate};
use crate::election::VoteToken;
use crate::signature_key::{EncodedPublicKey, EncodedSignature};

verus! {

/// The number of a view. Views only grow.
pub type ViewNumber = u64;

/// The view in which the chain starts.
pub const GENESIS_VIEW: u64 = 0;

/// A content address: the digest of a leaf, a block or a certificate.
#[derive(Clone, Copy, Debug, PartialEq, Eq, Hash)]
pub struct Commitment {
    pub bytes: [u8; 32],
}

impl View for Commitment {
    type V = Seq<u8>;

    open spec fn view(&self) -> Seq<u8> {
        self.bytes@
    }
}

impl Commitment {
    /// Whether two commitments have the same bytes.
    pub fn same_as(&self, other: &Commitment) -> (same: bool)
        ensures
            same == (*self == *other),
    {
        let mut i: usize = 0;
        while i < 32
            invariant
                i <= 32,
                forall|j: int| 0 <= j < i ==> self.bytes@[j] == other.bytes@[j],
            decreases 32 - i,
        {
            if self.bytes[i] != other.bytes[i] {
                return false;
            }
            i += 1;
        }
        assert(self.bytes =~= other.bytes);
        true
    }

    /// Two commitments with the same bytes are the same commitment.
    pub proof fn lemma_view_is_injective(a: Commitment, b: Commitment)
        requires
            a@ == b@,
        ensures
            a == b,
    {
        assert(a.bytes =~= b.bytes);
    }
}

/// What the leader proposes to the data-availability committee: the block
/// whose payload the committee is asked to keep.
#[derive(Clone, Copy, Debug, PartialEq, Eq)]
pub struct DAProposal {
    /// The block.
    pub block_commitment: Commitment,
    /// The view that the block is proposed in.
    pub view_number: ViewNumber,
}

/// What the leader proposes to the quorum: a leaf that extends the chain.
#[derive(Debug)]
pub struct ValidatingProposal<T> {
    /// The leaf.
    pub leaf: Leaf<T>,
    /// The leader's signature over the commitment of the leaf.
    pub signature: EncodedSignature,
}

/// A link of the chain.
#[derive(Debug)]
pub struct Leaf<T> {
    /// The content address of the leaf.
    pub commitment: Commitment,
    /// The view that the leaf was proposed in.
    pub view_number: ViewNumber,
    /// The leaf that this one extends.
    pub parent_commitment: Commitment,
    /// The certificate of the parent.
    pub justify_qc: QuorumCertificate<T>,
    /// The block that the leaf adds to the chain.
    pub block_commitment: Commitment,
    /// The size of that block.
    pub block_size: u64,
    /// Who proposed the leaf.
    pub proposer_key: EncodedPublicKey,
}

/// The model of a [`Leaf`].
pub ghost struct LeafRecord<T> {
    pub commitment: Commitment,
    pub view_number: ViewNumber,
    pub parent_commitment: Commitment,
    pub justify_qc: CertificateRecord<T>,
    pub block_commitment: Commitment,
    pub block_size: u64,
    pub proposer_key: Seq<u8>,
}

impl<T> View for Leaf<T> {
    type V = LeafRecord<T>;

    open spec fn view(&self) -> LeafRecord<T> {
        LeafRecord {
            commitment: self.commitment,
            view_number: self.view_number,
            parent_commitment: self.parent_commitment,
            justify_qc: self.justify_qc@,
            block_commitment: self.block_commitment,
            block_size: self.block_size,
            proposer_key: self.proposer_key@,
        }
    }
}

impl<T: VoteToken> Clone for Leaf<T> {
    /// A copy with the same content.
    fn clone(&self) -> (copy: Self)
        ensures
            copy@ == self@,
    {
        Leaf {
            commitment: self.commitment,
            view_number: self.view_number,
            parent_commitment: self.parent_commitment,
            justify_qc: self.justify_qc.clone(),
            block_commitment: self.block_commitment,
            block_size: self.block_size,
            proposer_key: self.proposer_key.clone(),
        }
    }
}

/// What a vote is cast on. A voter signs the canonical bytes of one of these.
#[derive(Clone, Copy, Debug, PartialEq, Eq, Hash)]
pub enum VoteData {
    /// The payload of the block with this commitment can be retrieved.
    DA(Commitment),
    /// The leaf with this commitment is accepted.
    Yes(Commitment),
    /// The leaf with this commitment is refused.
    No(Commitment),
    /// This view ended without a decision.
    Timeout(ViewNumber),
}

/// Tag that opens the canonical bytes of a `DA` vote.
pub const TAG_DA: u32 = 0;

/// Tag that opens the canonical bytes of a `Yes` vote.
pub const TAG_YES: u32 = 1;

/// Tag that opens the canonical bytes of a `No` vote.
pub const TAG_NO: u32 = 2;

/// Tag that opens the canonical bytes of a `Timeout` vote.
pub const TAG_TIMEOUT: u32 = 3;

/// A four-byte little-endian tag followed by the bytes of a commitment.
pub open spec fn tagged_commitment(tag: u32, commitment: Commitment) -> Seq<u8> {
    le_bytes_u32(tag) + commitment@
}

/// A four-byte little-endian tag followed by an eight-byte little-endian view number.
pub open spec fn tagged_view(tag: u32, view: ViewNumber) -> Seq<u8> {
    le_bytes_u32(tag) + le_bytes_u64(view)
}

/// `bincode::ErrorKind`, the error of a serialisation. It is carried
/// through unread.
#[verifier::external_type_specification]
#[verifier::external_body]
pub struct ExBincodeErrorKind(bincode::ErrorKind);

/// `bincode::Options::serialize` on a pair of a `u32` and a 32-byte array,
/// with fixed-width little-endian integers and no size limit.
///
/// Trusted: bincode writes a tuple as its fields in order, a `u32` as four
/// little-endian bytes, and an array as its bytes with no length in front.
/// With no limit set and a `Vec` to write to, none of these steps can fail.
#[verifier::external_body]
fn serialize_tagged_commitment(tag: u32, commitment: &Commitment) -> (r: Result<Vec<u8>, Box<bincode::ErrorKind>>)
    ensures
        r is Ok,
        r matches Ok(bytes) ==> bytes@ == tagged_commitment(tag, *commitment),
{
    bincode::DefaultOptions::new()
        .with_no_limit()
        .with_little_endian()
        .with_fixint_encoding()
        .reject_trailing_bytes()
        .serialize(&(tag, commitment.bytes))
}

/// `bincode::Options::serialize` on a pair of a `u32` and a `u64`, with
/// fixed-width little-endian integers and no size limit.
///
/// Trusted: bincode writes a tuple as its fields in order, a `u32` as four
/// and a `u64` as eight little-endian bytes. With no limit set and a `Vec` to
/// write to, none of these steps can fail.
#[verifier::external_body]
fn serialize_tagged_view(tag: u32, view: ViewNumber) -> (r: Result<Vec<u8>, Box<bincode::ErrorKind>>)
    ensures
        r is Ok,
        r matches Ok(bytes) ==> bytes@ == tagged_view(tag, view),
{
    bincode::DefaultOptions::new()
        .with_no_limit()
        .with_little_endian()
        .with_fixint_encoding()
        .reject_trailing_bytes()
        .serialize(&(tag, view))
}

impl VoteData {
    /// The tag that opens the canonical bytes.
    pub open spec fn tag(self) -> u32 {
        match self {
            VoteData::DA(_) => TAG_DA,
            VoteData::Yes(_) => TAG_YES,
            VoteData::No(_) => TAG_NO,
            VoteData::Timeout(_) => TAG_TIMEOUT,
        }
    }

    /// The commitment that the vote is about. A timeout is about none.
    pub open spec fn commitment(self) -> Option<Commitment> {
        match self {
            VoteData::DA(c) => Some(c),
            VoteData::Yes(c) => Some(c),
            VoteData::No(c) => Some(c),
            VoteData::Timeout(_) => None,
        }
    }

    /// The canonical bytes: the tag, then the commitment or the view number.
    pub open spec fn encoding(self) -> Seq<u8> {
        match self {
            VoteData::DA(c) => tagged_commitment(TAG_DA, c),
            VoteData::Yes(c) => tagged_commitment(TAG_YES, c),
            VoteData::No(c) => tagged_commitment(TAG_NO, c),
            VoteData::Timeout(v) => tagged_view(TAG_TIMEOUT, v),
        }
    }

    /// What a byte string stands for, if it is the canonical bytes of a vote.
    pub open spec fn decoding(bytes: Seq<u8>) -> Option<VoteData> {
        if bytes.len() == 36 {
            let tag = le_value_u32(bytes.subrange(0, 4));
            let commitment = commitment_of(bytes.subrange(4, 36));
            if tag == TAG_DA {
                Some(VoteData::DA(commitment))
            } else if tag == TAG_YES {
                Some(VoteData::Yes(commitment))
            } else if tag == TAG_NO {
                Some(VoteData::No(commitment))
            } else {
                None
            }
        } else if bytes.len() == 12 {
            let tag = le_value_u32(bytes.subrange(0, 4));
            if tag == TAG_TIMEOUT {
                Some(VoteData::Timeout(le_value_u64(bytes.subrange(4, 12))))
            } else {
                None
            }
        } else {
            None
        }
    }

    /// Whether two votes are on the same thing.
    pub fn same_as(&self, other: &VoteData) -> (same: bool)
        ensures
            same == (*self == *other),
    {
        match (self, other) {
            (VoteData::DA(a), VoteData::DA(b)) => a.same_as(b),
            (VoteData::Yes(a), VoteData::Yes(b)) => a.same_as(b),
            (VoteData::No(a), VoteData::No(b)) => a.same_as(b),
            (VoteData::Timeout(a), VoteData::Timeout(b)) => *a == *b,
            _ => false,
        }
    }

    /// Convert vote data into bytes.
    pub fn as_bytes(&self) -> (bytes: Vec<u8>)
        ensures
            bytes@ == self.encoding(),
    {
        let written = match self {
            VoteData::DA(c) => serialize_tagged_commitment(TAG_DA, c),
            VoteData::Yes(c) => serialize_tagged_commitment(TAG_YES, c),
            VoteData::No(c) => serialize_tagged_commitment(TAG_NO, c),
            VoteData::Timeout(v) => serialize_tagged_view(TAG_TIMEOUT, *v),
        };
        match written {
            Ok(bytes) => bytes,
            Err(_) => vstd::pervasive::unreached(),
        }
    }

    /// Reads vote data back from its canonical bytes. Anything else is refused.
    pub fn from_bytes(bytes: &[u8]) -> (data: Option<VoteData>)
        ensures
            data == VoteData::decoding(bytes@),
    {
        if bytes.len() == 36 {
            let tag = read_u32(slice_subrange(bytes, 0, 4));
            let commitment = read_commitment(slice_subrange(bytes, 4, 36));
            if tag == TAG_DA {
                Some(VoteData::DA(commitment))
            } else if tag == TAG_YES {
                Some(VoteData::Yes(commitment))
            } else if tag == TAG_NO {
                Some(VoteData::No(commitment))
            } else {
                None
            }
        } else if bytes.len() == 12 {
            let tag = read_u32(slice_subrange(bytes, 0, 4));
            if tag == TAG_TIMEOUT {
                Some(VoteData::Timeout(read_u64(slice_subrange(bytes, 4, 12))))
            } else {
                None
            }
        } else {
            None
        }
    }

    /// Decoding the canonical bytes of a vote gives that vote back.
    pub proof fn lemma_decoding_inverts_encoding(data: VoteData)
        ensures
            VoteData::decoding(data.encoding()) == Some(data),
    {
        lemma_le_u32_value(data.tag());
        let bytes = data.encoding();
        let tag = le_bytes_u32(data.tag());
        assert(bytes.subrange(0, 4) =~= tag);
        match data {
            VoteData::DA(c) | VoteData::Yes(c) | VoteData::No(c) => {
                assert(bytes.subrange(4, 36) =~= c@);
                lemma_commitment_of(c@);
                assert(commitment_of(c@).bytes =~= c.bytes);
            },
            VoteData::Timeout(v) => {
                lemma_le_u64_value(v);
                assert(bytes.subrange(4, 12) =~= le_bytes_u64(v));
            },
        }
    }

    /// Whatever decodes to a vote is the canonical bytes of that vote: no
    /// vote has two encodings.
    pub proof fn lemma_encoding_inverts_decoding(bytes: Seq<u8>)
        requires
            VoteData::decoding(bytes) is Some,
        ensures
            VoteData::decoding(bytes).unwrap().encoding() == bytes,
    {
        let head = bytes.subrange(0, 4);
        lemma_le_u32_bytes(head);
        if bytes.len() == 36 {
            let tail = bytes.subrange(4, 36);
            lemma_commitment_of(tail);
            assert(head + tail =~= bytes);
        } else {
            let tail = bytes.subrange(4, 12);
            lemma_le_u64_bytes(tail);
            assert(head + tail =~= bytes);
        }
    }

    /// Different votes have different canonical bytes, so a signature over
    /// one vote is never a signature over another.
    pub proof fn lemma_encoding_is_injective(a: VoteData, b: VoteData)
        requires
            a.encoding() == b.encoding(),
        ensures
            a == b,
    {
        VoteData::lemma_decoding_inverts_encoding(a);
        VoteData::lemma_decoding_inverts_encoding(b);
    }
}

/// The commitment whose bytes are the first 32 of `bytes`.
pub open spec fn commitment_of(bytes: Seq<u8>) -> Commitment {
    Commitment { bytes: array_of(bytes, 32) }
}

/// An array that agrees with `bytes` on its first `n` places.
pub closed spec fn array_of(bytes: Seq<u8>, n: nat) -> [u8; 32]
    decreases n,
{
    if n == 0 {
        vstd::array::spec_array_fill_for_copy_type::<u8, 32>(0)
    } else {
        vstd::array::spec_array_update(array_of(bytes, (n - 1) as nat), n - 1, bytes[n - 1])
    }
}

proof fn lemma_array_of(bytes: Seq<u8>, n: nat)
    requires
        n <= 32,
    ensures
        forall|i: int| 0 <= i < n ==> array_of(bytes, n)@[i] == bytes[i],
    decreases n,
{
    if n > 0 {
        lemma_array_of(bytes, (n - 1) as nat);
        vstd::array::axiom_spec_array_update(array_of(bytes, (n - 1) as nat), n - 1, bytes[n - 1]);
    }
}

/// A commitment made from 32 bytes has those bytes.
pub proof fn lemma_commitment_of(bytes: Seq<u8>)
    requires
        bytes.len() == 32,
    ensures
        commitment_of(bytes)@ == bytes,
{
    lemma_array_of(bytes, 32);
    assert(commitment_of(bytes)@ =~= bytes);
}

/// Reads a commitment from 32 bytes.
pub fn read_commitment(bytes: &[u8]) -> (commitment: Commitment)
    requires
        bytes@.len() == 32,
    ensures
        commitment == commitment_of(bytes@),
        commitment@ == bytes@,
{
    let mut out: [u8; 32] = [0u8; 32];
    let mut i: usize = 0;
    while i < 32
        invariant
            i <= 32,
            bytes@.len() == 32,
            forall|j: int| 0 <= j < i ==> out@[j] == bytes@[j],
        decreases 32 - i,
    {
        out[i] = bytes[i];
        i += 1;
    }
    proof {
        lemma_commitment_of(bytes@);
        assert(out@ =~= bytes@);
        assert(out =~= commitment_of(bytes@).bytes);
    }
    Commitment { bytes: out }
}

} // verus!
