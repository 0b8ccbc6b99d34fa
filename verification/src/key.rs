//! Public keys as the agent sees them: the bytes of their wire encoding in
//! the one form that the `ssh-key` crate writes, and a comment that plays no
//! part in telling keys apart.

use crate::error::AgentError;
use crate::wire::bytes_equal;
use vstd::prelude::*;

verus! {

/// The wire encoding that the `ssh-key` crate writes for the public key
/// that it reads from `blob`; nothing when it reads none, which is so
/// unless `blob` is, from its first byte to its last, the encoding of one
/// public key, or when it cannot write the key out.
pub uninterp spec fn key_blob_reencoded(blob: Seq<u8>) -> Option<Seq<u8>>;

/// `ssh_key::PublicKey::from_bytes`, then `ssh_key::PublicKey::to_bytes` on
/// what it gave: the key in `blob`, written out again.
#[verifier::external_body]
fn key_blob_reencode(blob: &[u8]) -> (r: Option<Vec<u8>>)
    ensures
        r is Some == key_blob_reencoded(blob@) is Some,
        r matches Some(written) ==> key_blob_reencoded(blob@) == Some(written@),
{
    match ssh_key::PublicKey::from_bytes(blob) {
        Ok(key) => key.to_bytes().ok(),
        Err(_) => None,
    }
}

/// Whether `blob` is a key in canonical form: it decodes, and what it
/// decodes to is written out as `blob` itself.
pub open spec fn is_canonical_key(blob: Seq<u8>) -> bool {
    key_blob_reencoded(blob) == Some(blob)
}

/// The canonical form of the key in `blob`: what the key is written out as,
/// provided that this is in canonical form.
pub open spec fn canonical_key(blob: Seq<u8>) -> Option<Seq<u8>> {
    match key_blob_reencoded(blob) {
        Some(written) if is_canonical_key(written) => Some(written),
        _ => None,
    }
}

/// The key material of a public key, held as its wire encoding in canonical
/// form. Two encodings of one key, which may differ in how they name the
/// algorithm, come to the same value here, so keys are told apart by
/// comparing bytes.
#[derive(Debug, PartialEq, Eq)]
pub struct KeyData {
    blob: Vec<u8>,
}

impl View for KeyData {
    type V = Seq<u8>;

    closed spec fn view(&self) -> Seq<u8> {
        self.blob@
    }
}

impl Clone for KeyData {
    fn clone(&self) -> (r: Self)
        ensures
            r@ == self@,
    {
        proof {
            use_type_invariant(self);
        }
        let blob = self.blob.clone();
        assert(blob@ =~= self.blob@);
        KeyData { blob }
    }
}

impl KeyData {
    #[verifier::type_invariant]
    spec fn inv(self) -> bool {
        is_canonical_key(self.blob@)
    }

    /// Reads key material from `blob` and brings it into canonical form.
    /// What does not decode as a public key is refused.
    pub fn from_bytes(blob: Vec<u8>) -> (r: Result<KeyData, AgentError>)
        ensures
            match canonical_key(blob@) {
                Some(key) => r matches Ok(k) && k@ == key,
                None => r matches Err(e) && e == AgentError::InvalidKey,
            },
    {
        let written = match key_blob_reencode(blob.as_slice()) {
            Some(written) => written,
            None => {
                return Err(AgentError::InvalidKey);
            },
        };
        if bytes_equal(written.as_slice(), blob.as_slice()) {
            return Ok(KeyData { blob });
        }
        match key_blob_reencode(written.as_slice()) {
            Some(again) => {
                if bytes_equal(again.as_slice(), written.as_slice()) {
                    Ok(KeyData { blob: written })
                } else {
                    Err(AgentError::InvalidKey)
                }
            },
            None => Err(AgentError::InvalidKey),
        }
    }

    /// The wire encoding of the key.
    pub fn as_bytes(&self) -> (r: &[u8])
        ensures
            r@ == self@,
            is_canonical_key(self@),
    {
        proof {
            use_type_invariant(self);
        }
        self.blob.as_slice()
    }

    /// Whether `self` and `other` are the same key.
    pub fn same_key(&self, other: &KeyData) -> (r: bool)
        ensures
            r == (self@ == other@),
    {
        bytes_equal(self.blob.as_slice(), other.blob.as_slice())
    }
}

/// What a [`PublicKey`] stands for.
pub struct PublicKeyView {
    pub key_data: Seq<u8>,
    pub comment: Seq<char>,
}

/// A public key with the label it was given.
#[derive(Debug, PartialEq, Eq)]
pub struct PublicKey {
    pub key_data: KeyData,
    pub comment: String,
}

impl View for PublicKey {
    type V = PublicKeyView;

    open spec fn view(&self) -> PublicKeyView {
        PublicKeyView { key_data: self.key_data@, comment: self.comment@ }
    }
}

impl Clone for PublicKey {
    fn clone(&self) -> (r: Self)
        ensures
            r@ == self@,
    {
        PublicKey { key_data: self.key_data.clone(), comment: self.comment.clone() }
    }
}

impl PublicKey {
    /// A key with the given comment.
    pub fn new(key_data: KeyData, comment: String) -> (r: PublicKey)
        ensures
            r@ == (PublicKeyView { key_data: key_data@, comment: comment@ }),
    {
        PublicKey { key_data, comment }
    }

    /// A key without a comment.
    pub fn from_key_data(key_data: KeyData) -> (r: PublicKey)
        ensures
            r@ == (PublicKeyView { key_data: key_data@, comment: Seq::<char>::empty() }),
    {
        PublicKey { key_data, comment: String::new() }
    }
}

} // verus!
