//! The payload of a request for a signature.

use crate::error::AgentError;
use crate::key::{canonical_key, is_canonical_key, KeyData, PublicKey, PublicKeyView};
use crate::wire::{
    lemma_parse_string_wire, lemma_parse_u32_wire, len_fits, parse_string, parse_u32, put_string,
    put_u32, string_len, string_wire, u32_bytes, Decode, Encode, Reader,
};
use vstd::prelude::*;

verus! {

broadcast use crate::wire::lemma_u32_bytes_len;

/// What a [`SignRequest`] stands for.
pub struct SignRequestView {
    pub pubkey: PublicKeyView,
    pub data: Seq<u8>,
    pub flags: u32,
}

/// A request to sign `data` with the private half of `pubkey`. The bits of
/// `flags` choose the hash.
#[derive(Debug, PartialEq, Eq)]
pub struct SignRequest {
    pub pubkey: PublicKey,
    pub data: Vec<u8>,
    pub flags: u32,
}

impl View for SignRequest {
    type V = SignRequestView;

    open spec fn view(&self) -> SignRequestView {
        SignRequestView { pubkey: self.pubkey@, data: self.data@, flags: self.flags }
    }
}

impl Clone for SignRequest {
    fn clone(&self) -> (r: Self)
        ensures
            r@ == self@,
    {
        let data = self.data.clone();
        assert(data@ =~= self.data@);
        SignRequest { pubkey: self.pubkey.clone(), data, flags: self.flags }
    }
}

impl SignRequestView {
    /// Whether the request is one that decoding can produce: its key is in
    /// canonical form and carries no comment, and both of its strings can
    /// announce their length.
    pub open spec fn wf(self) -> bool {
        &&& is_canonical_key(self.pubkey.key_data)
        &&& self.pubkey.comment.len() == 0
        &&& len_fits(self.pubkey.key_data.len())
        &&& len_fits(self.data.len())
    }
}

impl Encode for SignRequest {
    /// The key as a string, the data as a string, then the flags.
    open spec fn wire(v: SignRequestView) -> Seq<u8> {
        string_wire(v.pubkey.key_data) + string_wire(v.data) + u32_bytes(v.flags)
    }

    open spec fn fits(v: SignRequestView) -> bool {
        len_fits(v.pubkey.key_data.len()) && len_fits(v.data.len())
    }

    fn encoded_len(&self) -> (r: Result<usize, AgentError>) {
        let key = string_len(self.pubkey.key_data.as_bytes().len())?;
        let data = string_len(self.data.len())?;
        match key.checked_add(data) {
            None => Err(AgentError::TooLong),
            Some(both) => match both.checked_add(4) {
                None => Err(AgentError::TooLong),
                Some(all) => Ok(all),
            },
        }
    }

    fn encode(&self, out: &mut Vec<u8>) -> (r: Result<(), AgentError>) {
        if self.data.len() > crate::wire::MAX_LEN {
            return Err(AgentError::TooLong);
        }
        put_string(out, self.pubkey.key_data.as_bytes())?;
        put_string(out, self.data.as_slice())?;
        put_u32(out, self.flags);
        assert(out@ =~= old(out)@ + Self::wire(self@));
        Ok(())
    }
}

impl Decode for SignRequest {
    /// A string that must decode as a public key, a string of data, and
    /// four bytes of flags, in that order. The key is taken in canonical
    /// form, without a comment.
    open spec fn parse(s: Seq<u8>) -> Result<(SignRequestView, int), AgentError> {
        match parse_string(s) {
            Err(e) => Err(e),
            Ok((blob, n1)) => match canonical_key(blob) {
                None => Err(AgentError::InvalidKey),
                Some(key) => match parse_string(s.skip(n1)) {
                    Err(e) => Err(e),
                    Ok((data, n2)) => match parse_u32(s.skip(n1 + n2)) {
                        Err(e) => Err(e),
                        Ok((flags, n3)) => Ok(
                            (
                                SignRequestView {
                                    pubkey: PublicKeyView {
                                        key_data: key,
                                        comment: Seq::<char>::empty(),
                                    },
                                    data,
                                    flags,
                                },
                                n1 + n2 + n3,
                            ),
                        ),
                    },
                },
            },
        }
    }

    fn decode(reader: &mut Reader<'_>) -> (r: Result<Self, AgentError>) {
        let ghost s = reader.remaining();
        let blob = reader.read_string()?;
        let ghost n1 = 4 + blob@.len() as int;
        let key_data = KeyData::from_bytes(blob)?;
        let data = reader.read_string()?;
        let ghost n2 = 4 + data@.len() as int;
        assert(s.skip(n1).skip(n2) =~= s.skip(n1 + n2));
        let flags = reader.read_u32()?;
        assert(s.skip(n1 + n2).skip(4) =~= s.skip(n1 + n2 + 4));
        Ok(SignRequest { pubkey: PublicKey::from_key_data(key_data), data, flags })
    }
}

/// A well-formed request is read back from its own bytes, whatever follows
/// them.
pub proof fn lemma_sign_request_round_trip(v: SignRequestView, tail: Seq<u8>)
    requires
        v.wf(),
    ensures
        SignRequest::parse(SignRequest::wire(v) + tail) == Ok::<
            (SignRequestView, int),
            AgentError,
        >((v, SignRequest::wire(v).len() as int)),
{
    let key = v.pubkey.key_data;
    let s = SignRequest::wire(v) + tail;
    let n1 = 4 + key.len() as int;
    let n2 = 4 + v.data.len() as int;
    let rest1 = string_wire(v.data) + u32_bytes(v.flags) + tail;
    let rest2 = u32_bytes(v.flags) + tail;
    assert(s =~= string_wire(key) + rest1);
    lemma_parse_string_wire(key, rest1);
    assert(s.skip(n1) =~= rest1);
    assert(rest1 =~= string_wire(v.data) + rest2);
    lemma_parse_string_wire(v.data, rest2);
    assert(s.skip(n1 + n2) =~= rest2);
    lemma_parse_u32_wire(v.flags, tail);
    assert(v.pubkey.comment =~= Seq::<char>::empty());
}

} // verus!
