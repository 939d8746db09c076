//! The canonical bytes of a certificate.
//!
//! A certificate is written as the 32 bytes of its commitment, its view as
//! eight little-endian bytes, the number of its votes as eight little-endian
//! bytes, the votes in their order, and one byte that is 1 for the
//! certificate that starts the chain and 0 else. A vote is written as the
//! voter's key, the signature and the canonical bytes of the token, each
//! behind its length as eight little-endian bytes.

use vstd::prelude::*;
use crate::bytes::{le_bytes_u64, le_value_u64, lemma_le_u64_bytes, lemma_le_u64_value, read_u64, write_u64};
use vstd::slice::slice_subrange;
use crate::certificate::{keys_distinct, CertificateRecord, DACertificate, QuorumCertificate, SignatureMap, VoteRecord};
use crate::data::{commitment_of, lemma_commitment_of, read_commitment, Commitment, ViewNumber};
use crate::election::VoteToken;
use crate::signature_key::{bytes_copy, EncodedPublicKey, EncodedSignature};

verus! {

/// A byte string behind its length.
pub open spec fn framed(content: Seq<u8>) -> Seq<u8> {
    le_bytes_u64(content.len() as u64) + content
}

/// The byte string that stands behind its length at the front of `bytes`,
/// and what follows it; nothing where `bytes` is too short.
pub open spec fn unframed(bytes: Seq<u8>) -> Option<(Seq<u8>, Seq<u8>)> {
    if bytes.len() >= 8 {
        let n = le_value_u64(bytes.take(8)) as int;
        if bytes.len() - 8 >= n {
            Some((bytes.subrange(8, 8 + n), bytes.skip(8 + n)))
        } else {
            None
        }
    } else {
        None
    }
}

/// The canonical bytes of a vote.
pub open spec fn record_encoding<T: VoteToken>(record: VoteRecord<T>) -> Seq<u8> {
    framed(record.key) + framed(record.signature) + framed(record.token.encoding())
}

/// The vote at the front of `bytes`, and what follows it.
pub open spec fn record_decoding<T: VoteToken>(bytes: Seq<u8>) -> Option<(VoteRecord<T>, Seq<u8>)> {
    match unframed(bytes) {
        Some((key, after_key)) => match unframed(after_key) {
            Some((signature, after_signature)) => match unframed(after_signature) {
                Some((token, rest)) => match T::decoding(token) {
                    Some(token) => Some((VoteRecord { key, signature, token }, rest)),
                    None => None,
                },
                None => None,
            },
            None => None,
        },
        None => None,
    }
}

/// The canonical bytes of votes, one after the other.
pub open spec fn records_encoding<T: VoteToken>(records: Seq<VoteRecord<T>>) -> Seq<u8>
    decreases records.len(),
{
    if records.len() == 0 {
        Seq::empty()
    } else {
        record_encoding(records.first()) + records_encoding(records.drop_first())
    }
}

/// The `count` votes at the front of `bytes`, and what follows them.
pub open spec fn records_decoding<T: VoteToken>(bytes: Seq<u8>, count: nat) -> Option<
    (Seq<VoteRecord<T>>, Seq<u8>),
>
    decreases count,
{
    if count == 0 {
        Some((Seq::empty(), bytes))
    } else {
        match record_decoding::<T>(bytes) {
            Some((record, rest)) => match records_decoding::<T>(rest, (count - 1) as nat) {
                Some((records, tail)) => Some((seq![record] + records, tail)),
                None => None,
            },
            None => None,
        }
    }
}

/// The canonical bytes of a certificate.
pub open spec fn certificate_encoding<T: VoteToken>(certificate: CertificateRecord<T>) -> Seq<u8> {
    certificate.commitment@ + le_bytes_u64(certificate.view_number) + le_bytes_u64(
        certificate.records.len() as u64,
    ) + records_encoding(certificate.records) + seq![
        if certificate.genesis {
            1u8
        } else {
            0u8
        },
    ]
}

/// The certificate that a byte string stands for, if it is the canonical
/// bytes of one: nothing is missing, nothing follows, and no voter occurs
/// twice.
pub open spec fn certificate_decoding<T: VoteToken>(bytes: Seq<u8>) -> Option<CertificateRecord<T>> {
    if bytes.len() >= 49 {
        match records_decoding::<T>(bytes.skip(48), le_value_u64(bytes.subrange(40, 48)) as nat) {
            Some((records, tail)) => {
                if tail.len() == 1 && tail[0] <= 1 && keys_distinct(records) {
                    Some(
                        CertificateRecord {
                            view_number: le_value_u64(bytes.subrange(32, 40)),
                            commitment: commitment_of(bytes.subrange(0, 32)),
                            records,
                            genesis: tail[0] == 1,
                        },
                    )
                } else {
                    None
                }
            },
            None => None,
        }
    } else {
        None
    }
}

/// Whether the lengths in a vote can be written in eight bytes.
pub open spec fn record_fits<T: VoteToken>(record: VoteRecord<T>) -> bool {
    &&& record.key.len() <= u64::MAX
    &&& record.signature.len() <= u64::MAX
    &&& record.token.encoding().len() <= u64::MAX
}

/// Whether the lengths in a certificate can be written in eight bytes.
pub open spec fn certificate_fits<T: VoteToken>(certificate: CertificateRecord<T>) -> bool {
    &&& certificate.records.len() <= u64::MAX
    &&& forall|i: int| 0 <= i < certificate.records.len() ==> record_fits(#[trigger] certificate.records[i])
}

/// What is framed comes out of the frame, and what follows it is left over.
pub proof fn lemma_unframed_framed(content: Seq<u8>, rest: Seq<u8>)
    requires
        content.len() <= u64::MAX,
    ensures
        unframed(framed(content) + rest) == Some((content, rest)),
{
    lemma_le_u64_value(content.len() as u64);
    let bytes = framed(content) + rest;
    assert(bytes.take(8) =~= le_bytes_u64(content.len() as u64));
    assert(bytes.subrange(8, 8 + content.len() as int) =~= content);
    assert(bytes.skip(8 + content.len() as int) =~= rest);
}

/// What comes out of a frame stood in it, before what is left over.
pub proof fn lemma_framed_unframed(bytes: Seq<u8>)
    requires
        unframed(bytes) is Some,
    ensures
        bytes == framed(unframed(bytes).unwrap().0) + unframed(bytes).unwrap().1,
        unframed(bytes).unwrap().0.len() <= u64::MAX,
        unframed(bytes).unwrap().1.len() + 8 <= bytes.len(),
{
    lemma_le_u64_bytes(bytes.take(8));
    let n = le_value_u64(bytes.take(8)) as int;
    let content = bytes.subrange(8, 8 + n);
    assert(bytes =~= bytes.take(8) + content + bytes.skip(8 + n));
}

/// A vote that was written is read back, and what follows it is left over.
pub proof fn lemma_record_decoding_inverts_encoding<T: VoteToken>(record: VoteRecord<T>, rest: Seq<u8>)
    requires
        record_fits(record),
    ensures
        record_decoding::<T>(record_encoding(record) + rest) == Some((record, rest)),
{
    let token = framed(record.token.encoding());
    let signature = framed(record.signature);
    lemma_unframed_framed(record.key, signature + token + rest);
    lemma_unframed_framed(record.signature, token + rest);
    lemma_unframed_framed(record.token.encoding(), rest);
    T::lemma_decoding_inverts_encoding(record.token);
    assert(record_encoding(record) + rest =~= framed(record.key) + (signature + token + rest));
    assert(signature + token + rest =~= signature + (token + rest));
}

/// A vote that was read stood there as it is written.
pub proof fn lemma_record_encoding_inverts_decoding<T: VoteToken>(bytes: Seq<u8>)
    requires
        record_decoding::<T>(bytes) is Some,
    ensures
        bytes == record_encoding(record_decoding::<T>(bytes).unwrap().0) + record_decoding::<T>(
            bytes,
        ).unwrap().1,
        record_fits(record_decoding::<T>(bytes).unwrap().0),
        record_decoding::<T>(bytes).unwrap().1.len() < bytes.len(),
{
    let (key, after_key) = unframed(bytes).unwrap();
    let (signature, after_signature) = unframed(after_key).unwrap();
    let (token, rest) = unframed(after_signature).unwrap();
    lemma_framed_unframed(bytes);
    lemma_framed_unframed(after_key);
    lemma_framed_unframed(after_signature);
    T::lemma_encoding_inverts_decoding(token);
    assert(bytes =~= framed(key) + framed(signature) + framed(token) + rest);
}

/// Votes that were written are read back, and what follows them is left over.
pub proof fn lemma_records_decoding_inverts_encoding<T: VoteToken>(records: Seq<VoteRecord<T>>, rest: Seq<u8>)
    requires
        forall|i: int| 0 <= i < records.len() ==> record_fits(#[trigger] records[i]),
    ensures
        records_decoding::<T>(records_encoding(records) + rest, records.len()) == Some((records, rest)),
    decreases records.len(),
{
    if records.len() == 0 {
        assert(records_encoding(records) + rest =~= rest);
        assert(records =~= Seq::empty());
    } else {
        let first = records.first();
        let others = records.drop_first();
        assert(record_fits(records[0]));
        assert forall|i: int| 0 <= i < others.len() implies record_fits(#[trigger] others[i]) by {
            assert(others[i] == records[i + 1]);
        }
        lemma_record_decoding_inverts_encoding(first, records_encoding(others) + rest);
        lemma_records_decoding_inverts_encoding(others, rest);
        assert(records_encoding(records) + rest =~= record_encoding(first) + (records_encoding(others) + rest));
        assert(seq![first] + others =~= records);
    }
}

/// Votes that were read stood there as they are written.
pub proof fn lemma_records_encoding_inverts_decoding<T: VoteToken>(bytes: Seq<u8>, count: nat)
    requires
        records_decoding::<T>(bytes, count) is Some,
    ensures
        bytes == records_encoding(records_decoding::<T>(bytes, count).unwrap().0) + records_decoding::<T>(
            bytes,
            count,
        ).unwrap().1,
        records_decoding::<T>(bytes, count).unwrap().0.len() == count,
        forall|i: int|
            0 <= i < count ==> record_fits(#[trigger] records_decoding::<T>(bytes, count).unwrap().0[i]),
    decreases count,
{
    if count == 0 {
        assert(bytes =~= records_encoding(Seq::<VoteRecord<T>>::empty()) + bytes);
    } else {
        let (record, rest) = record_decoding::<T>(bytes).unwrap();
        let (records, tail) = records_decoding::<T>(rest, (count - 1) as nat).unwrap();
        lemma_record_encoding_inverts_decoding::<T>(bytes);
        lemma_records_encoding_inverts_decoding::<T>(rest, (count - 1) as nat);
        let all = seq![record] + records;
        assert(all.first() == record);
        assert(all.drop_first() =~= records);
        assert(bytes =~= record_encoding(record) + records_encoding(records) + tail);
        assert forall|i: int| 0 <= i < count implies record_fits(#[trigger] all[i]) by {
            if i > 0 {
                assert(all[i] == records[i - 1]);
            }
        }
    }
}

/// A certificate that was written is read back as it was.
pub proof fn lemma_certificate_decoding_inverts_encoding<T: VoteToken>(certificate: CertificateRecord<T>)
    requires
        certificate_fits(certificate),
        keys_distinct(certificate.records),
    ensures
        certificate_decoding::<T>(certificate_encoding(certificate)) == Some(certificate),
{
    lemma_le_u64_value(certificate.view_number);
    lemma_le_u64_value(certificate.records.len() as u64);
    let bytes = certificate_encoding(certificate);
    let flag = seq![
        if certificate.genesis {
            1u8
        } else {
            0u8
        },
    ];
    let view = le_bytes_u64(certificate.view_number);
    let count = le_bytes_u64(certificate.records.len() as u64);
    assert(bytes.subrange(0, 32) =~= certificate.commitment@);
    assert(bytes.subrange(32, 40) =~= view);
    assert(bytes.subrange(40, 48) =~= count);
    assert(bytes.skip(48) =~= records_encoding(certificate.records) + flag);
    lemma_records_decoding_inverts_encoding(certificate.records, flag);
    lemma_commitment_of(certificate.commitment@);
    Commitment::lemma_view_is_injective(commitment_of(certificate.commitment@), certificate.commitment);
}

/// A certificate has one canonical form: what reads as a certificate is
/// what that certificate writes.
pub proof fn lemma_certificate_encoding_inverts_decoding<T: VoteToken>(bytes: Seq<u8>)
    requires
        certificate_decoding::<T>(bytes) is Some,
    ensures
        certificate_encoding(certificate_decoding::<T>(bytes).unwrap()) == bytes,
{
    lemma_le_u64_bytes(bytes.subrange(32, 40));
    lemma_le_u64_bytes(bytes.subrange(40, 48));
    let certificate = certificate_decoding::<T>(bytes).unwrap();
    let count = le_value_u64(bytes.subrange(40, 48)) as nat;
    let (records, tail) = records_decoding::<T>(bytes.skip(48), count).unwrap();
    lemma_records_encoding_inverts_decoding::<T>(bytes.skip(48), count);
    lemma_commitment_of(bytes.subrange(0, 32));
    assert(tail =~= seq![
        if certificate.genesis {
            1u8
        } else {
            0u8
        },
    ]);
    assert(bytes =~= bytes.subrange(0, 32) + bytes.subrange(32, 40) + bytes.subrange(40, 48) + bytes.skip(48));
}

/// One more vote is written behind the others.
pub proof fn lemma_records_encoding_push<T: VoteToken>(records: Seq<VoteRecord<T>>, record: VoteRecord<T>)
    ensures
        records_encoding(records.push(record)) == records_encoding(records) + record_encoding(record),
    decreases records.len(),
{
    let longer = records.push(record);
    if records.len() == 0 {
        assert(longer.drop_first() =~= Seq::<VoteRecord<T>>::empty());
        assert(records_encoding(longer.drop_first()) =~= Seq::<u8>::empty());
        assert(records_encoding(longer) =~= record_encoding(record));
        assert(records_encoding(records) + record_encoding(record) =~= record_encoding(record));
    } else {
        lemma_records_encoding_push(records.drop_first(), record);
        assert(longer.drop_first() =~= records.drop_first().push(record));
        assert(longer.first() == records.first());
        assert(records_encoding(longer) =~= records_encoding(records) + record_encoding(record));
    }
}

/// What is read of votes after some that were read before.
pub open spec fn appended<T>(before: Seq<VoteRecord<T>>, read: Option<(Seq<VoteRecord<T>>, Seq<u8>)>) -> Option<
    (Seq<VoteRecord<T>>, Seq<u8>),
> {
    match read {
        Some((records, tail)) => Some((before + records, tail)),
        None => None,
    }
}

/// Writes a byte string behind its length.
fn write_frame(out: &mut Vec<u8>, content: &[u8])
    ensures
        final(out)@ == old(out)@ + framed(content@),
{
    let ghost before = out@;
    let mut length = write_u64(content.len() as u64);
    out.append(&mut length);
    let mut i: usize = 0;
    while i < content.len()
        invariant
            i <= content@.len(),
            out@ == before + le_bytes_u64(content@.len() as u64) + content@.take(i as int),
        decreases content@.len() - i,
    {
        out.push(content[i]);
        assert(content@.take(i + 1) =~= content@.take(i as int).push(content@[i as int]));
        i += 1;
    }
    assert(content@.take(content@.len() as int) =~= content@);
    assert(out@ =~= before + framed(content@));
}

/// Reads the byte string that stands behind its length at a place in
/// `bytes`, and gives the place behind it.
fn read_frame(bytes: &[u8], at: usize) -> (read: Option<(Vec<u8>, usize)>)
    requires
        at <= bytes@.len(),
    ensures
        match read {
            Some((content, next)) => at <= next <= bytes@.len() && unframed(bytes@.skip(at as int)) == Some(
                (content@, bytes@.skip(next as int)),
            ),
            None => unframed(bytes@.skip(at as int)) is None,
        },
{
    let ghost here = bytes@.skip(at as int);
    if bytes.len() - at < 8 {
        return None;
    }
    let length = read_u64(slice_subrange(bytes, at, at + 8));
    assert(bytes@.subrange(at as int, at + 8) =~= here.take(8));
    let remaining = bytes.len() - at - 8;
    if length > remaining as u64 {
        return None;
    }
    let n = length as usize;
    let content = bytes_copy(slice_subrange(bytes, at + 8, at + 8 + n));
    proof {
        assert(bytes@.subrange(at + 8, at + 8 + n) =~= here.subrange(8, 8 + n));
        assert(bytes@.skip(at + 8 + n) =~= here.skip(8 + n));
    }
    Some((content, at + 8 + n))
}

/// The parts of a vote as they are read: the voter's key, the signature,
/// the token, and the place behind the vote.
pub struct ReadVote<T> {
    pub key: EncodedPublicKey,
    pub signature: EncodedSignature,
    pub token: T,
    pub next: usize,
}

/// Reads the vote at a place in `bytes`.
fn read_record<T: VoteToken>(bytes: &[u8], at: usize) -> (read: Option<ReadVote<T>>)
    requires
        at <= bytes@.len(),
    ensures
        match read {
            Some(vote) => at < vote.next <= bytes@.len() && record_decoding::<T>(bytes@.skip(at as int)) == Some(
                (
                    VoteRecord { key: vote.key@, signature: vote.signature@, token: vote.token },
                    bytes@.skip(vote.next as int),
                ),
            ),
            None => record_decoding::<T>(bytes@.skip(at as int)) is None,
        },
{
    let (key, after_key) = match read_frame(bytes, at) {
        Some(read) => read,
        None => {
            return None;
        },
    };
    let (signature, after_signature) = match read_frame(bytes, after_key) {
        Some(read) => read,
        None => {
            return None;
        },
    };
    let (token, next) = match read_frame(bytes, after_signature) {
        Some(read) => read,
        None => {
            return None;
        },
    };
    proof {
        lemma_framed_unframed(bytes@.skip(at as int));
    }
    match T::from_bytes(token.as_slice()) {
        Some(token) => Some(
            ReadVote { key: EncodedPublicKey(key), signature: EncodedSignature(signature), token, next },
        ),
        None => None,
    }
}

/// Writes a certificate as its canonical bytes. What is written reads back
/// as the certificate.
pub fn encode_certificate<T: VoteToken>(
    commitment: &Commitment,
    view_number: ViewNumber,
    signatures: &SignatureMap<T>,
    genesis: bool,
) -> (bytes: Vec<u8>)
    ensures
        bytes@ == certificate_encoding(
            CertificateRecord { view_number, commitment: *commitment, records: signatures@, genesis },
        ),
        certificate_decoding::<T>(bytes@) == Some(
            CertificateRecord { view_number, commitment: *commitment, records: signatures@, genesis },
        ),
{
    let mut out = bytes_copy(commitment.bytes.as_slice());
    let mut view = write_u64(view_number);
    out.append(&mut view);
    let n = signatures.len();
    let mut count = write_u64(n as u64);
    out.append(&mut count);
    let ghost head = out@;
    assert(out@ =~= head + records_encoding(signatures@.take(0))) by {
        assert(signatures@.take(0) =~= Seq::<VoteRecord<T>>::empty());
    }
    let mut i: usize = 0;
    while i < n
        invariant
            i <= n,
            n == signatures@.len(),
            out@ == head + records_encoding(signatures@.take(i as int)),
            forall|j: int| 0 <= j < i ==> record_fits(#[trigger] signatures@[j]),
        decreases n - i,
    {
        let vote = signatures.get(i);
        let ghost before = out@;
        write_frame(&mut out, vote.key.0.as_slice());
        write_frame(&mut out, vote.signature.0.as_slice());
        let token = vote.token.to_bytes();
        write_frame(&mut out, token.as_slice());
        let ghost lengths = (vote.key.0.len(), vote.signature.0.len(), token.len());
        proof {
            lemma_records_encoding_push(signatures@.take(i as int), signatures@[i as int]);
            assert(signatures@.take(i + 1) =~= signatures@.take(i as int).push(signatures@[i as int]));
            assert(out@ =~= before + record_encoding(signatures@[i as int]));
            assert(vote.key@.len() == vote.key.0@.len());
            assert(vote.signature@.len() == vote.signature.0@.len());
            assert(signatures@[i as int].token.encoding() == token@);
            assert(record_fits(signatures@[i as int]));
        }
        i += 1;
    }
    assert(signatures@.take(n as int) =~= signatures@);
    out.push(
        if genesis {
            1u8
        } else {
            0u8
        },
    );
    proof {
        let flag = seq![
            if genesis {
                1u8
            } else {
                0u8
            },
        ];
        assert(out@ =~= head + records_encoding(signatures@) + flag);
        assert(head =~= commitment@ + le_bytes_u64(view_number) + le_bytes_u64(
            signatures@.len() as u64,
        ));
        lemma_certificate_decoding_inverts_encoding(
            CertificateRecord { view_number, commitment: *commitment, records: signatures@, genesis },
        );
    }
    out
}

/// The parts of a certificate as they are read.
pub struct ReadCertificate<T> {
    pub commitment: Commitment,
    pub view_number: ViewNumber,
    pub signatures: SignatureMap<T>,
    pub genesis: bool,
}

impl<T> View for ReadCertificate<T> {
    type V = CertificateRecord<T>;

    open spec fn view(&self) -> CertificateRecord<T> {
        CertificateRecord {
            view_number: self.view_number,
            commitment: self.commitment,
            records: self.signatures@,
            genesis: self.genesis,
        }
    }
}

/// Reads a certificate back from its canonical bytes. Anything else is refused.
pub fn decode_certificate<T: VoteToken>(bytes: &[u8]) -> (read: Option<ReadCertificate<T>>)
    ensures
        match read {
            Some(certificate) => certificate_decoding::<T>(bytes@) == Some(certificate@),
            None => certificate_decoding::<T>(bytes@) is None,
        },
{
    if bytes.len() < 49 {
        return None;
    }
    let commitment = read_commitment(slice_subrange(bytes, 0, 32));
    let view_number = read_u64(slice_subrange(bytes, 32, 40));
    let count = read_u64(slice_subrange(bytes, 40, 48));
    let mut signatures: SignatureMap<T> = SignatureMap::new();
    let mut at: usize = 48;
    let mut i: u64 = 0;
    let ghost body = bytes@.skip(48);
    assert(appended(signatures@, records_decoding::<T>(bytes@.skip(at as int), (count - i) as nat))
        == records_decoding::<T>(body, count as nat)) by {
        let read = records_decoding::<T>(body, count as nat);
        if read is Some {
            assert(Seq::<VoteRecord<T>>::empty() + read.unwrap().0 =~= read.unwrap().0);
        }
    }
    while i < count
        invariant
            48 <= at <= bytes@.len(),
            49 <= bytes@.len(),
            i <= count,
            count == le_value_u64(bytes@.subrange(40, 48)),
            body == bytes@.skip(48),
            appended(signatures@, records_decoding::<T>(bytes@.skip(at as int), (count - i) as nat))
                == records_decoding::<T>(body, count as nat),
        decreases count - i,
    {
        let ghost so_far = signatures@;
        let ghost here = bytes@.skip(at as int);
        match read_record::<T>(bytes, at) {
            None => {
                return None;
            },
            Some(vote) => {
                let ghost record = VoteRecord { key: vote.key@, signature: vote.signature@, token: vote.token };
                let ghost rest = records_decoding::<T>(bytes@.skip(vote.next as int), (count - i - 1) as nat);
                let next = vote.next;
                let inserted = signatures.insert(vote.key, vote.signature, vote.token);
                if !inserted {
                    proof {
                        if rest is Some {
                            let all = so_far + (seq![record] + rest.unwrap().0);
                            let k = choose|k: int| 0 <= k < so_far.len() && #[trigger] so_far[k].key == record.key;
                            assert(all[k].key == all[so_far.len() as int].key);
                            assert(records_decoding::<T>(body, count as nat) == Some((all, rest.unwrap().1)));
                            assert(!keys_distinct(all));
                        }
                    }
                    return None;
                }
                proof {
                    if rest is Some {
                        assert(so_far + (seq![record] + rest.unwrap().0) =~= so_far.push(record)
                            + rest.unwrap().0);
                    }
                }
                at = next;
                i += 1;
            },
        }
    }
    let _ = signatures.len();
    if bytes.len() - at != 1 {
        proof {
            assert(signatures@ + Seq::<VoteRecord<T>>::empty() =~= signatures@);
        }
        return None;
    }
    let flag = bytes[at];
    proof {
        assert(signatures@ + Seq::<VoteRecord<T>>::empty() =~= signatures@);
        assert(bytes@.skip(at as int)[0] == bytes@[at as int]);
    }
    if flag > 1 {
        return None;
    }
    Some(ReadCertificate { commitment, view_number, signatures, genesis: flag == 1 })
}

impl<T: VoteToken> QuorumCertificate<T> {
    /// Writes the certificate as its canonical bytes. What is written reads
    /// back as the certificate.
    pub fn to_bytes(&self) -> (bytes: Vec<u8>)
        ensures
            bytes@ == certificate_encoding(self@),
            certificate_decoding::<T>(bytes@) == Some(self@),
    {
        encode_certificate(&self.leaf_commitment, self.view_number, &self.signatures, self.genesis)
    }

    /// Reads a certificate back from its canonical bytes. Anything else is refused.
    pub fn from_bytes(bytes: &[u8]) -> (certificate: Option<Self>)
        ensures
            match certificate {
                Some(c) => certificate_decoding::<T>(bytes@) == Some(c@),
                None => certificate_decoding::<T>(bytes@) is None,
            },
    {
        match decode_certificate::<T>(bytes) {
            Some(read) => Some(
                QuorumCertificate {
                    leaf_commitment: read.commitment,
                    view_number: read.view_number,
                    signatures: read.signatures,
                    genesis: read.genesis,
                },
            ),
            None => None,
        }
    }
}

impl<T: VoteToken> DACertificate<T> {
    /// Writes the certificate as its canonical bytes. What is written reads
    /// back as the certificate.
    pub fn to_bytes(&self) -> (bytes: Vec<u8>)
        ensures
            bytes@ == certificate_encoding(self@),
            certificate_decoding::<T>(bytes@) == Some(self@),
    {
        encode_certificate(&self.block_commitment, self.view_number, &self.signatures, self.genesis)
    }

    /// Reads a certificate back from its canonical bytes. Anything else is refused.
    pub fn from_bytes(bytes: &[u8]) -> (certificate: Option<Self>)
        ensures
            match certificate {
                Some(c) => certificate_decoding::<T>(bytes@) == Some(c@),
                None => certificate_decoding::<T>(bytes@) is None,
            },
    {
        match decode_certificate::<T>(bytes) {
            Some(read) => Some(
                DACertificate {
                    view_number: read.view_number,
                    signatures: read.signatures,
                    block_commitment: read.commitment,
                    genesis: read.genesis,
                },
            ),
            None => None,
        }
    }
}

} // verus!
