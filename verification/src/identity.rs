//! Identities: the keys that the agent holds.

use crate::error::AgentError;
use crate::key::{canonical_key, KeyData, PublicKey};
use ssh_key::private::{KeypairData, RsaKeypair};
use vstd::prelude::*;

verus! {

/// What the `ssh-key` crate reads from a private key in OpenSSH format:
/// the wire encoding of the public half, the comment, and whether the key is
/// an RSA key. Nothing when it reads no key from `pem`, or cannot write the
/// public half out.
pub uninterp spec fn openssh_identity(pem: Seq<u8>) -> Option<(Seq<u8>, Seq<char>, bool)>;

/// `ssh_key::PrivateKey::from_openssh`, with the key it gives taken apart:
/// its public half as `to_bytes` writes it, its comment, and its key data,
/// of which only an RSA key pair is kept.
#[verifier::external_body]
fn read_openssh(pem: &[u8]) -> (r: Option<(Vec<u8>, String, Keypair)>)
    ensures
        r is Some == openssh_identity(pem@) is Some,
        r matches Some(parts) ==> openssh_identity(pem@) == Some(
            (parts.0@, parts.1@, parts.2 is Rsa),
        ),
{
    let key = ssh_key::PrivateKey::from_openssh(pem).ok()?;
    let public = key.public_key().to_bytes().ok()?;
    let keypair = match key.key_data() {
        KeypairData::Rsa(keypair) => Keypair::Rsa(keypair.clone()),
        _ => Keypair::Unsupported,
    };
    Some((public, key.comment().to_owned(), keypair))
}

/// The private half of an identity, by key family.
#[derive(Debug)]
pub enum Keypair {
    /// An RSA key pair, the one family the agent signs with.
    Rsa(RsaKeypair),
    /// A key of any other family. The agent lists it and cannot use it.
    Unsupported,
}

/// One key that the agent holds: the public half, the private half, and the
/// label under which it is listed.
#[derive(Debug)]
pub struct Identity {
    pub pubkey: PublicKey,
    pub privkey: Keypair,
    pub comment: String,
}

impl Identity {
    /// The bytes by which this identity is found: the wire encoding of its
    /// public key.
    pub open spec fn key(self) -> Seq<u8> {
        self.pubkey@.key_data
    }

    /// Whether the agent can sign with this identity.
    pub open spec fn can_sign(self) -> bool {
        self.privkey is Rsa
    }

    /// Puts an identity together from what was read out of a stored key:
    /// the encoding of the public half, the private half, and the comment.
    /// The identity is refused unless the encoding decodes as a public key;
    /// it is held in canonical form.
    pub fn from_parts(public: Vec<u8>, privkey: Keypair, comment: String) -> (r: Result<
        Identity,
        AgentError,
    >)
        ensures
            match canonical_key(public@) {
                Some(key) => {
                    &&& r matches Ok(id)
                    &&& id.key() == key
                    &&& id.pubkey@.comment == comment@
                    &&& id.comment@ == comment@
                    &&& id.privkey == privkey
                },
                None => r matches Err(e) && e == AgentError::InvalidKey,
            },
    {
        let key_data = KeyData::from_bytes(public)?;
        let pubkey = PublicKey::new(key_data, comment.clone());
        Ok(Identity { pubkey, privkey, comment })
    }

    /// What [`Identity::new`] makes of a stored key: the key of the
    /// identity, its comment, and whether it can sign.
    pub open spec fn spec_new(pem: Seq<u8>) -> Option<(Seq<u8>, Seq<char>, bool)> {
        match openssh_identity(pem) {
            Some((public, comment, rsa)) => match canonical_key(public) {
                Some(key) => Some((key, comment, rsa)),
                None => None,
            },
            None => None,
        }
    }

    /// Reads an identity from a private key in OpenSSH format: its public
    /// key in canonical form, its comment, and its private half if the key
    /// is an RSA key. What holds no key is refused.
    pub fn new(key: &[u8]) -> (r: Result<Identity, AgentError>)
        ensures
            match Self::spec_new(key@) {
                Some((public, comment, rsa)) => {
                    &&& r matches Ok(id)
                    &&& id.key() == public
                    &&& id.pubkey@.comment == comment
                    &&& id.comment@ == comment
                    &&& id.can_sign() == rsa
                },
                None => r matches Err(e) && e == AgentError::InvalidKey,
            },
    {
        match read_openssh(key) {
            Some((public, comment, privkey)) => Identity::from_parts(public, privkey, comment),
            None => Err(AgentError::InvalidKey),
        }
    }
}

} // verus!
