//! Signatures and the hash algorithms they are made with.

use crate::error::AgentError;
use crate::wire::{
    lemma_parse_string_wire, lemma_parse_text_wire, len_fits, parse_string, parse_text,
    put_string, put_text, string_len, string_wire, text_wire, Decode, Encode, Reader,
};
use vstd::prelude::*;
use vstd::utf8::encode_utf8;

verus! {

broadcast use crate::wire::lemma_u32_bytes_len;

/// The flag bit by which a client asks for SHA-256.
pub const FLAG_SHA2_256: u32 = 0x02;

/// The flag bit by which a client asks for SHA-512.
pub const FLAG_SHA2_512: u32 = 0x04;

/// The hash under an RSA signature.
#[derive(Clone, Copy, Debug, PartialEq, Eq, Structural)]
pub enum HashAlg {
    /// SHA-1, used when a request names no other.
    Sha1,
    /// SHA-256.
    Sha256,
    /// SHA-512.
    Sha512,
}

impl HashAlg {
    /// The hash that a request's flags ask for. The SHA-512 bit outranks
    /// the SHA-256 bit; bits that name no hash are passed over.
    pub open spec fn spec_from_flags(flags: u32) -> HashAlg {
        if flags & FLAG_SHA2_512 != 0 {
            HashAlg::Sha512
        } else if flags & FLAG_SHA2_256 != 0 {
            HashAlg::Sha256
        } else {
            HashAlg::Sha1
        }
    }

    /// The hash that a request's flags ask for.
    #[verifier::when_used_as_spec(spec_from_flags)]
    pub fn from_flags(flags: u32) -> (r: HashAlg)
        ensures
            r == Self::spec_from_flags(flags),
    {
        if flags & FLAG_SHA2_512 != 0 {
            HashAlg::Sha512
        } else if flags & FLAG_SHA2_256 != 0 {
            HashAlg::Sha256
        } else {
            HashAlg::Sha1
        }
    }

    /// Of the two flag bits the one for SHA-512 wins; alone, the one for
    /// SHA-256 gives SHA-256; with neither set the hash is SHA-1. No other
    /// bit has a say.
    pub proof fn lemma_flag_precedence(flags: u32)
        ensures
            flags & FLAG_SHA2_512 != 0 ==> Self::spec_from_flags(flags) == HashAlg::Sha512,
            flags & FLAG_SHA2_512 == 0 && flags & FLAG_SHA2_256 != 0 ==> Self::spec_from_flags(
                flags,
            ) == HashAlg::Sha256,
            flags & (FLAG_SHA2_512 | FLAG_SHA2_256) == 0 ==> Self::spec_from_flags(flags)
                == HashAlg::Sha1,
            Self::spec_from_flags(flags) == Self::spec_from_flags(
                flags & (FLAG_SHA2_512 | FLAG_SHA2_256),
            ),
    {
        assert(flags & (0x04u32 | 0x02u32) == 0 ==> flags & 0x04u32 == 0 && flags & 0x02u32 == 0)
            by (bit_vector);
        assert((flags & (0x04u32 | 0x02u32)) & 0x04u32 == flags & 0x04u32) by (bit_vector);
        assert((flags & (0x04u32 | 0x02u32)) & 0x02u32 == flags & 0x02u32) by (bit_vector);
    }

    /// The name under which signatures made with this hash travel.
    pub open spec fn spec_name(self) -> Seq<char> {
        match self {
            HashAlg::Sha1 => "ssh-rsa"@,
            HashAlg::Sha256 => "rsa-sha2-256"@,
            HashAlg::Sha512 => "rsa-sha2-512"@,
        }
    }

    /// The name under which signatures made with this hash travel.
    pub fn name(self) -> (r: &'static str)
        ensures
            r@ == self.spec_name(),
    {
        match self {
            HashAlg::Sha1 => "ssh-rsa",
            HashAlg::Sha256 => "rsa-sha2-256",
            HashAlg::Sha512 => "rsa-sha2-512",
        }
    }

    /// The hash that travels under `name`, if any does.
    pub open spec fn spec_from_name(name: Seq<char>) -> Option<HashAlg> {
        if name == "ssh-rsa"@ {
            Some(HashAlg::Sha1)
        } else if name == "rsa-sha2-256"@ {
            Some(HashAlg::Sha256)
        } else if name == "rsa-sha2-512"@ {
            Some(HashAlg::Sha512)
        } else {
            None
        }
    }

    /// The hash that travels under `name`, if any does.
    pub fn from_name(name: &str) -> (r: Option<HashAlg>)
        ensures
            r == Self::spec_from_name(name@),
    {
        let given = String::from_str(name);
        if given == String::from_str("ssh-rsa") {
            Some(HashAlg::Sha1)
        } else if given == String::from_str("rsa-sha2-256") {
            Some(HashAlg::Sha256)
        } else if given == String::from_str("rsa-sha2-512") {
            Some(HashAlg::Sha512)
        } else {
            None
        }
    }

    /// Each hash is found again under its own name, and each name is short.
    pub proof fn lemma_names(self)
        ensures
            Self::spec_from_name(self.spec_name()) == Some(self),
            encode_utf8(self.spec_name()).len() <= 12,
    {
        reveal_strlit("ssh-rsa");
        reveal_strlit("rsa-sha2-256");
        reveal_strlit("rsa-sha2-512");
        vstd::utf8::is_ascii_chars_encode_utf8(self.spec_name());
        assert("ssh-rsa"@.len() != "rsa-sha2-256"@.len());
        assert("ssh-rsa"@.len() != "rsa-sha2-512"@.len());
        assert("rsa-sha2-256"@[9] != "rsa-sha2-512"@[9]);
    }
}

/// What a [`Signature`] stands for.
pub struct SignatureView {
    pub algorithm: HashAlg,
    pub data: Seq<u8>,
}

/// A signature: the hash it was made with and its raw bytes.
#[derive(Debug, PartialEq, Eq)]
pub struct Signature {
    pub algorithm: HashAlg,
    pub data: Vec<u8>,
}

impl View for Signature {
    type V = SignatureView;

    open spec fn view(&self) -> SignatureView {
        SignatureView { algorithm: self.algorithm, data: self.data@ }
    }
}

impl Clone for Signature {
    fn clone(&self) -> (r: Self)
        ensures
            r@ == self@,
    {
        let data = self.data.clone();
        assert(data@ =~= self.data@);
        Signature { algorithm: self.algorithm, data }
    }
}

impl SignatureView {
    /// The two fields of a signature as they lie inside its outer string.
    pub open spec fn body(self) -> Seq<u8> {
        text_wire(self.algorithm.spec_name()) + string_wire(self.data)
    }
}

impl Encode for Signature {
    /// One string that holds the algorithm's name as a text and the raw
    /// signature as a string.
    open spec fn wire(v: SignatureView) -> Seq<u8> {
        string_wire(v.body())
    }

    open spec fn fits(v: SignatureView) -> bool {
        len_fits(v.data.len()) && len_fits(v.body().len())
    }

    fn encoded_len(&self) -> (r: Result<usize, AgentError>) {
        proof {
            self.algorithm.lemma_names();
        }
        let name = string_len(self.algorithm.name().as_bytes().len())?;
        let data = string_len(self.data.len())?;
        match name.checked_add(data) {
            None => Err(AgentError::TooLong),
            Some(body) => string_len(body),
        }
    }

    fn encode(&self, out: &mut Vec<u8>) -> (r: Result<(), AgentError>) {
        proof {
            self.algorithm.lemma_names();
        }
        let mut body: Vec<u8> = Vec::new();
        put_text(&mut body, self.algorithm.name())?;
        put_string(&mut body, self.data.as_slice())?;
        assert(body@ =~= self@.body());
        put_string(out, body.as_slice())
    }
}

impl Decode for Signature {
    /// One string; inside it a text that must name a known algorithm, then
    /// a string of raw signature. What follows inside is passed over.
    open spec fn parse(s: Seq<u8>) -> Result<(SignatureView, int), AgentError> {
        match parse_string(s) {
            Err(e) => Err(e),
            Ok((body, used)) => match parse_text(body) {
                Err(e) => Err(e),
                Ok((name, n)) => match HashAlg::spec_from_name(name) {
                    None => Err(AgentError::UnknownAlgorithm),
                    Some(algorithm) => match parse_string(body.skip(n)) {
                        Err(e) => Err(e),
                        Ok((data, _)) => Ok((SignatureView { algorithm, data }, used)),
                    },
                },
            },
        }
    }

    fn decode(reader: &mut Reader<'_>) -> (r: Result<Self, AgentError>) {
        let body = reader.read_string()?;
        let mut inner = Reader::new(body.as_slice());
        let name = inner.read_text()?;
        let algorithm = match HashAlg::from_name(name.as_str()) {
            Some(algorithm) => algorithm,
            None => {
                return Err(AgentError::UnknownAlgorithm);
            },
        };
        let data = inner.read_string()?;
        Ok(Signature { algorithm, data })
    }
}

/// A signature whose lengths can be announced is read back from its own
/// bytes, whatever follows them.
pub proof fn lemma_signature_round_trip(v: SignatureView, tail: Seq<u8>)
    requires
        Signature::fits(v),
    ensures
        Signature::parse(Signature::wire(v) + tail) == Ok::<(SignatureView, int), AgentError>(
            (v, Signature::wire(v).len() as int),
        ),
{
    let name = v.algorithm.spec_name();
    v.algorithm.lemma_names();
    lemma_parse_string_wire(v.body(), tail);
    lemma_parse_text_wire(name, string_wire(v.data));
    let n = 4 + encode_utf8(name).len() as int;
    assert(v.body().skip(n) =~= string_wire(v.data));
    assert(string_wire(v.data) =~= string_wire(v.data) + Seq::<u8>::empty());
    lemma_parse_string_wire(v.data, Seq::<u8>::empty());
}

} // verus!
