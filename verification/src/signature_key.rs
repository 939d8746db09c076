//! Keys and signatures as they travel on the wire, and the capability a
//! signature scheme has to offer to the rest of the crate.

use vstd::prelude::*;

verus! {

/// A public key in its wire form.
#[derive(Debug, PartialEq, Eq, Hash)]
pub struct EncodedPublicKey(pub Vec<u8>);

/// A signature in its wire form.
#[derive(Debug, PartialEq, Eq, Hash)]
pub struct EncodedSignature(pub Vec<u8>);

impl View for EncodedPublicKey {
    type V = Seq<u8>;

    open spec fn view(&self) -> Seq<u8> {
        self.0@
    }
}

impl View for EncodedSignature {
    type V = Seq<u8>;

    open spec fn view(&self) -> Seq<u8> {
        self.0@
    }
}

/// Compares two byte strings.
pub fn bytes_eq(a: &[u8], b: &[u8]) -> (same: bool)
    ensures
        same == (a@ == b@),
{
    if a.len() != b.len() {
        return false;
    }
    let mut i: usize = 0;
    while i < a.len()
        invariant
            i <= a.len(),
            a.len() == b.len(),
            forall|j: int| 0 <= j < i ==> a@[j] == b@[j],
        decreases a.len() - i,
    {
        if a[i] != b[i] {
            return false;
        }
        i += 1;
    }
    assert(a@ =~= b@);
    true
}

/// Copies a byte string.
pub fn bytes_copy(a: &[u8]) -> (copy: Vec<u8>)
    ensures
        copy@ == a@,
{
    let mut copy: Vec<u8> = Vec::new();
    let mut i: usize = 0;
    while i < a.len()
        invariant
            i <= a.len(),
            copy@ == a@.take(i as int),
        decreases a.len() - i,
    {
        copy.push(a[i]);
        assert(a@.take(i + 1) =~= a@.take(i as int).push(a@[i as int]));
        i += 1;
    }
    assert(a@.take(a.len() as int) =~= a@);
    copy
}

impl EncodedPublicKey {
    /// Whether two keys have the same bytes.
    pub fn same_as(&self, other: &EncodedPublicKey) -> (same: bool)
        ensures
            same == (self@ == other@),
    {
        bytes_eq(self.0.as_slice(), other.0.as_slice())
    }

}

impl Clone for EncodedPublicKey {
    /// A copy with the same bytes.
    fn clone(&self) -> (copy: Self)
        ensures
            copy@ == self@,
    {
        EncodedPublicKey(bytes_copy(self.0.as_slice()))
    }
}

impl EncodedSignature {
    /// Whether two signatures have the same bytes.
    pub fn same_as(&self, other: &EncodedSignature) -> (same: bool)
        ensures
            same == (self@ == other@),
    {
        bytes_eq(self.0.as_slice(), other.0.as_slice())
    }

}

impl Clone for EncodedSignature {
    /// A copy with the same bytes.
    fn clone(&self) -> (copy: Self)
        ensures
            copy@ == self@,
    {
        EncodedSignature(bytes_copy(self.0.as_slice()))
    }
}

/// What a signature scheme offers: signing with a private key, checking with
/// the public key, and a wire form of the public key.
///
/// The spec functions name what the executable methods return, so that
/// contracts elsewhere can speak of a scheme without knowing it.
pub trait SignatureKey: Sized {
    /// The private half of a key pair.
    type PrivateKey;

    /// The wire form of this key.
    spec fn encoding(&self) -> Seq<u8>;

    /// The key that a wire form stands for, if it stands for one.
    spec fn decoding(bytes: Seq<u8>) -> Option<Self>;

    /// Whether this key accepts `signature` as a signature over `data`.
    spec fn accepts(&self, signature: Seq<u8>, data: Seq<u8>) -> bool;

    /// The public key that goes with a private key.
    spec fn public_of(private_key: &Self::PrivateKey) -> Self;

    /// Whether `sign` may answer `signature` when asked to sign `data` with
    /// `private_key`. A scheme that signs with fresh randomness relates one
    /// input to many signatures.
    spec fn signs(private_key: &Self::PrivateKey, data: Seq<u8>, signature: Seq<u8>) -> bool;

    /// Signs `data`.
    fn sign(private_key: &Self::PrivateKey, data: &[u8]) -> (signature: EncodedSignature)
        ensures
            Self::signs(private_key, data@, signature@),
    ;

    /// Checks a signature over `data` against this key.
    fn validate(&self, signature: &EncodedSignature, data: &[u8]) -> (ok: bool)
        ensures
            ok == self.accepts(signature@, data@),
    ;

    /// Produce a public key from a private key.
    fn from_private(private_key: &Self::PrivateKey) -> (key: Self)
        ensures
            key == Self::public_of(private_key),
    ;

    /// Reads a key from its wire form.
    fn from_bytes(bytes: &EncodedPublicKey) -> (key: Option<Self>)
        ensures
            key == Self::decoding(bytes@),
    ;

    /// Writes this key in its wire form.
    fn to_bytes(&self) -> (bytes: EncodedPublicKey)
        ensures
            bytes@ == self.encoding(),
    ;

    /// Reading back what was written gives the key that was written.
    proof fn lemma_decoding_inverts_encoding(key: Self)
        ensures
            Self::decoding(key.encoding()) == Some(key),
    ;

    /// What `sign` answers verifies under the public key that goes with the
    /// private key.
    proof fn lemma_signature_verifies(private_key: Self::PrivateKey, data: Seq<u8>, signature: Seq<u8>)
        requires
            Self::signs(&private_key, data, signature),
        ensures
            Self::public_of(&private_key).accepts(signature, data),
    ;

    /// A key has one wire form: what reads as a key is what that key writes.
    /// Without this a voter could stand in a certificate twice, under two
    /// byte strings.
    proof fn lemma_encoding_inverts_decoding(bytes: Seq<u8>)
        requires
            Self::decoding(bytes) is Some,
        ensures
            Self::decoding(bytes).unwrap().encoding() == bytes,
    ;
}

/// Two keys with the same wire form are the same key.
pub proof fn lemma_encoding_is_injective<K: SignatureKey>(a: K, b: K)
    requires
        a.encoding() == b.encoding(),
    ensures
        a == b,
{
    K::lemma_decoding_inverts_encoding(a);
    K::lemma_decoding_inverts_encoding(b);
}

} // verus!
