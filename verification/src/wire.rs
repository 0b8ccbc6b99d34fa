//! The primitive encodings of the wire format: single bytes, 32-bit
//! big-endian integers, and strings that carry their length in front.
//!
//! Each primitive has a specification of its bytes, a specification of how
//! those bytes are read back, a lemma that the two agree, and executable
//! code proved against both.

use crate::error::AgentError;
use vstd::prelude::*;
use vstd::slice::{slice_subrange, slice_to_vec};
use vstd::utf8::{decode_utf8, encode_utf8, valid_utf8};

verus! {

/// The largest length a string on the wire can announce.
pub const MAX_LEN: usize = 0xffff_ffff;

/// The four bytes of `v`, most significant first.
#[verifier::opaque]
pub open spec fn u32_bytes(v: u32) -> Seq<u8> {
    seq![
        (v / 0x100_0000) as u8,
        ((v / 0x1_0000) % 0x100) as u8,
        ((v / 0x100) % 0x100) as u8,
        (v % 0x100) as u8,
    ]
}

/// The number whose big-endian bytes are the first four of `b`.
#[verifier::opaque]
pub open spec fn u32_value(b: Seq<u8>) -> u32
    recommends
        b.len() >= 4,
{
    (b[0] as int * 0x100_0000 + b[1] as int * 0x1_0000 + b[2] as int * 0x100 + b[3] as int) as u32
}

/// The four bytes in which a length is announced. Lengths above
/// [`MAX_LEN`] have no honest announcement; [`len_fits`] rules them out.
pub open spec fn len_bytes(n: nat) -> Seq<u8> {
    u32_bytes((n % 0x1_0000_0000) as u32)
}

/// True when a length can be announced in four bytes.
pub open spec fn len_fits(n: nat) -> bool {
    n <= MAX_LEN
}

/// A string on the wire: its length, then its bytes.
pub open spec fn string_wire(s: Seq<u8>) -> Seq<u8> {
    len_bytes(s.len()) + s
}

/// A text on the wire: the string of its UTF-8 encoding.
pub open spec fn text_wire(t: Seq<char>) -> Seq<u8> {
    string_wire(encode_utf8(t))
}

/// Reads one byte from the front of `s`: the byte and the count of bytes
/// used.
pub open spec fn parse_u8(s: Seq<u8>) -> Result<(u8, int), AgentError> {
    if s.len() < 1 {
        Err(AgentError::Truncated)
    } else {
        Ok((s[0], 1))
    }
}

/// Reads a 32-bit big-endian integer from the front of `s`.
pub open spec fn parse_u32(s: Seq<u8>) -> Result<(u32, int), AgentError> {
    if s.len() < 4 {
        Err(AgentError::Truncated)
    } else {
        Ok((u32_value(s), 4))
    }
}

/// Reads a string from the front of `s`: an announced length, then that
/// many bytes.
pub open spec fn parse_string(s: Seq<u8>) -> Result<(Seq<u8>, int), AgentError> {
    if s.len() < 4 || s.len() - 4 < u32_value(s) {
        Err(AgentError::Truncated)
    } else {
        Ok((s.subrange(4, 4 + u32_value(s)), 4 + u32_value(s)))
    }
}

/// Reads a text from the front of `s`: a string that must hold UTF-8.
pub open spec fn parse_text(s: Seq<u8>) -> Result<(Seq<char>, int), AgentError> {
    match parse_string(s) {
        Err(e) => Err(e),
        Ok((bytes, used)) => if valid_utf8(bytes) {
            Ok((decode_utf8(bytes), used))
        } else {
            Err(AgentError::InvalidText)
        },
    }
}

/// An integer takes four bytes.
pub broadcast proof fn lemma_u32_bytes_len(v: u32)
    ensures
        #[trigger] u32_bytes(v).len() == 4,
{
    reveal(u32_bytes);
}

/// Reading back the bytes of an integer gives the integer.
pub proof fn lemma_u32_round_trip(v: u32)
    ensures
        u32_bytes(v).len() == 4,
        u32_value(u32_bytes(v)) == v,
{
    reveal(u32_bytes);
    reveal(u32_value);
    let x = v as int;
    let a = x / 0x100;
    let b = a / 0x100;
    let c = b / 0x100;
    assert(x == 0x100 * a + x % 0x100);
    assert(a == 0x100 * b + a % 0x100);
    assert(b == 0x100 * c + b % 0x100);
    assert(b == x / 0x1_0000);
    assert(c == x / 0x100_0000);
    assert(0 <= c < 0x100);
    let w = u32_bytes(v);
    assert(w[0] as int == c);
    assert(w[1] as int == b % 0x100);
    assert(w[2] as int == a % 0x100);
    assert(w[3] as int == x % 0x100);
}

/// An integer is read back from the front of whatever follows it.
pub proof fn lemma_parse_u32_wire(v: u32, tail: Seq<u8>)
    ensures
        parse_u32(u32_bytes(v) + tail) == Ok::<(u32, int), AgentError>((v, 4)),
{
    lemma_u32_round_trip(v);
    reveal(u32_value);
    let s = u32_bytes(v) + tail;
    assert(s[0] == u32_bytes(v)[0] && s[1] == u32_bytes(v)[1] && s[2] == u32_bytes(v)[2] && s[3]
        == u32_bytes(v)[3]);
}

/// A string whose length can be announced is read back from the front of
/// whatever follows it.
pub proof fn lemma_parse_string_wire(s: Seq<u8>, tail: Seq<u8>)
    requires
        len_fits(s.len()),
    ensures
        string_wire(s).len() == 4 + s.len(),
        parse_string(string_wire(s) + tail) == Ok::<(Seq<u8>, int), AgentError>(
            (s, 4 + s.len() as int),
        ),
{
    let n = s.len() as u32;
    let w = string_wire(s) + tail;
    lemma_u32_round_trip(n);
    assert(w =~= u32_bytes(n) + (s + tail));
    lemma_parse_u32_wire(n, s + tail);
    assert(w.subrange(4, 4 + n) =~= s);
}

/// A text whose encoding can be announced is read back from the front of
/// whatever follows it.
pub proof fn lemma_parse_text_wire(t: Seq<char>, tail: Seq<u8>)
    requires
        len_fits(encode_utf8(t).len()),
    ensures
        text_wire(t).len() == 4 + encode_utf8(t).len(),
        parse_text(text_wire(t) + tail) == Ok::<(Seq<char>, int), AgentError>(
            (t, 4 + encode_utf8(t).len() as int),
        ),
{
    lemma_parse_string_wire(encode_utf8(t), tail);
    vstd::utf8::encode_utf8_valid_utf8(t);
    vstd::utf8::encode_utf8_decode_utf8(t);
}

/// Passing over `a` bytes and then over `b` more is passing over `a + b`.
pub proof fn lemma_skip_skip(s: Seq<u8>, a: int, b: int)
    requires
        0 <= a,
        0 <= b,
        a + b <= s.len(),
    ensures
        s.skip(a).skip(b) == s.skip(a + b),
{
    assert(s.skip(a).skip(b) =~= s.skip(a + b));
}

/// Appends one byte.
pub fn put_u8(out: &mut Vec<u8>, v: u8)
    ensures
        final(out)@ == old(out)@ + seq![v],
{
    out.push(v);
    assert(out@ =~= old(out)@ + seq![v]);
}

/// Appends the four bytes of `v`, most significant first.
pub fn put_u32(out: &mut Vec<u8>, v: u32)
    ensures
        final(out)@ == old(out)@ + u32_bytes(v),
{
    out.push((v / 0x100_0000) as u8);
    out.push(((v / 0x1_0000) % 0x100) as u8);
    out.push(((v / 0x100) % 0x100) as u8);
    out.push((v % 0x100) as u8);
    reveal(u32_bytes);
    assert(out@ =~= old(out)@ + u32_bytes(v));
}

/// Appends `s` as a string, or appends nothing when its length cannot be
/// announced.
pub fn put_string(out: &mut Vec<u8>, s: &[u8]) -> (r: Result<(), AgentError>)
    ensures
        len_fits(s@.len()) ==> r is Ok && final(out)@ == old(out)@ + string_wire(s@),
        !len_fits(s@.len()) ==> r == Err::<(), AgentError>(AgentError::TooLong) && final(out)@
            == old(out)@,
{
    if s.len() > MAX_LEN {
        return Err(AgentError::TooLong);
    }
    let n: u32 = s.len() as u32;
    put_u32(out, n);
    out.extend_from_slice(s);
    assert(out@ =~= old(out)@ + string_wire(s@));
    Ok(())
}

/// Appends `t` as a text, or appends nothing when the length of its
/// encoding cannot be announced.
pub fn put_text(out: &mut Vec<u8>, t: &str) -> (r: Result<(), AgentError>)
    ensures
        len_fits(encode_utf8(t@).len()) ==> r is Ok && final(out)@ == old(out)@ + text_wire(t@),
        !len_fits(encode_utf8(t@).len()) ==> r == Err::<(), AgentError>(AgentError::TooLong)
            && final(out)@ == old(out)@,
{
    put_string(out, t.as_bytes())
}

/// The length of a string on the wire, unless it overflows.
pub fn string_len(n: usize) -> (r: Result<usize, AgentError>)
    ensures
        4 + n <= usize::MAX ==> r == Ok::<usize, AgentError>((4 + n) as usize),
        4 + n > usize::MAX ==> r == Err::<usize, AgentError>(AgentError::TooLong),
{
    match n.checked_add(4) {
        Some(total) => Ok(total),
        None => Err(AgentError::TooLong),
    }
}

/// Whether `a` and `b` hold the same bytes.
pub fn bytes_equal(a: &[u8], b: &[u8]) -> (r: bool)
    ensures
        r == (a@ == b@),
{
    if a.len() != b.len() {
        return false;
    }
    let mut i: usize = 0;
    while i < a.len()
        invariant
            i <= a@.len(),
            a@.len() == b@.len(),
            forall|j: int| 0 <= j < i ==> a@[j] == b@[j],
        decreases a@.len() - i,
    {
        if a[i] != b[i] {
            return false;
        }
        i = i + 1;
    }
    assert(a@ =~= b@);
    true
}

/// `String::from_utf8` of the standard library: the text that `bytes`
/// encode, or nothing when they are not UTF-8.
#[verifier::external_body]
fn text_from_utf8(bytes: Vec<u8>) -> (r: Option<String>)
    ensures
        r is Some == valid_utf8(bytes@),
        r matches Some(t) ==> t@ == decode_utf8(bytes@),
{
    String::from_utf8(bytes).ok()
}

/// The integer at `pos`, if four bytes are left there.
fn u32_at(input: &[u8], pos: usize) -> (r: Result<u32, AgentError>)
    requires
        pos <= input@.len(),
    ensures
        match parse_u32(input@.skip(pos as int)) {
            Ok((v, _)) => r == Ok::<u32, AgentError>(v),
            Err(e) => r == Err::<u32, AgentError>(e),
        },
        r is Ok ==> pos + 4 <= input@.len() <= usize::MAX,
{
    reveal(u32_value);
    if input.len() - pos < 4 {
        return Err(AgentError::Truncated);
    }
    let b0: u32 = input[pos] as u32;
    let b1: u32 = input[pos + 1] as u32;
    let b2: u32 = input[pos + 2] as u32;
    let b3: u32 = input[pos + 3] as u32;
    Ok(b0 * 0x100_0000 + b1 * 0x1_0000 + b2 * 0x100 + b3)
}

/// The string at `pos`, if its length and that many bytes are left there.
fn string_at(input: &[u8], pos: usize) -> (r: Result<Vec<u8>, AgentError>)
    requires
        pos <= input@.len(),
    ensures
        match parse_string(input@.skip(pos as int)) {
            Ok((v, used)) => r matches Ok(s) && s@ == v && used == 4 + s@.len(),
            Err(e) => r == Err::<Vec<u8>, AgentError>(e),
        },
        r matches Ok(s) ==> pos + 4 + s@.len() <= input@.len() <= usize::MAX,
{
    let n: u32 = match u32_at(input, pos) {
        Ok(n) => n,
        Err(e) => {
            return Err(e);
        },
    };
    let len: usize = n as usize;
    if input.len() - pos - 4 < len {
        return Err(AgentError::Truncated);
    }
    let bytes = slice_to_vec(slice_subrange(input, pos + 4, pos + 4 + len));
    assert(bytes@ =~= input@.skip(pos as int).subrange(4, 4 + n));
    Ok(bytes)
}

/// A cursor over the bytes of one message.
pub struct Reader<'a> {
    input: &'a [u8],
    pos: usize,
}

impl<'a> Reader<'a> {
    #[verifier::type_invariant]
    spec fn inv(self) -> bool {
        self.pos <= self.input@.len()
    }

    /// The bytes not yet read.
    pub closed spec fn remaining(self) -> Seq<u8> {
        self.input@.skip(self.pos as int)
    }

    /// A cursor at the front of `input`.
    pub fn new(input: &'a [u8]) -> (r: Self)
        ensures
            r.remaining() == input@,
    {
        assert(input@.skip(0) =~= input@);
        Reader { input, pos: 0 }
    }

    /// Reads one byte, or leaves the cursor where it is.
    pub fn read_u8(&mut self) -> (r: Result<u8, AgentError>)
        ensures
            match parse_u8(old(self).remaining()) {
                Ok((v, used)) => r == Ok::<u8, AgentError>(v) && final(self).remaining() == old(
                    self,
                ).remaining().skip(used),
                Err(e) => r == Err::<u8, AgentError>(e) && final(self).remaining() == old(
                    self,
                ).remaining(),
            },
    {
        proof {
            use_type_invariant(&*self);
        }
        if self.input.len() - self.pos < 1 {
            return Err(AgentError::Truncated);
        }
        let v = self.input[self.pos];
        self.pos = self.pos + 1;
        assert(self.remaining() =~= old(self).remaining().skip(1));
        Ok(v)
    }

    /// Reads a 32-bit big-endian integer, or leaves the cursor where it is.
    pub fn read_u32(&mut self) -> (r: Result<u32, AgentError>)
        ensures
            match parse_u32(old(self).remaining()) {
                Ok((v, used)) => r == Ok::<u32, AgentError>(v) && final(self).remaining() == old(
                    self,
                ).remaining().skip(used),
                Err(e) => r == Err::<u32, AgentError>(e) && final(self).remaining() == old(
                    self,
                ).remaining(),
            },
    {
        proof {
            use_type_invariant(&*self);
        }
        let v = u32_at(self.input, self.pos)?;
        self.pos = self.pos + 4;
        assert(self.remaining() =~= old(self).remaining().skip(4));
        Ok(v)
    }

    /// Reads a string, or leaves the cursor where it is.
    pub fn read_string(&mut self) -> (r: Result<Vec<u8>, AgentError>)
        ensures
            match parse_string(old(self).remaining()) {
                Ok((v, used)) => r matches Ok(s) && s@ == v && final(self).remaining() == old(
                    self,
                ).remaining().skip(used),
                Err(e) => r == Err::<Vec<u8>, AgentError>(e) && final(self).remaining() == old(
                    self,
                ).remaining(),
            },
    {
        proof {
            use_type_invariant(&*self);
        }
        let bytes = string_at(self.input, self.pos)?;
        self.pos = self.pos + 4 + bytes.len();
        assert(self.remaining() =~= old(self).remaining().skip(4 + bytes@.len() as int));
        Ok(bytes)
    }

    /// Reads a text, or leaves the cursor where it is.
    pub fn read_text(&mut self) -> (r: Result<String, AgentError>)
        ensures
            match parse_text(old(self).remaining()) {
                Ok((v, used)) => r matches Ok(t) && t@ == v && final(self).remaining() == old(
                    self,
                ).remaining().skip(used),
                Err(e) => r == Err::<String, AgentError>(e) && final(self).remaining() == old(
                    self,
                ).remaining(),
            },
    {
        proof {
            use_type_invariant(&*self);
        }
        let bytes = string_at(self.input, self.pos)?;
        let used: usize = 4 + bytes.len();
        match text_from_utf8(bytes) {
            Some(t) => {
                self.pos = self.pos + used;
                assert(self.remaining() =~= old(self).remaining().skip(used as int));
                Ok(t)
            },
            None => Err(AgentError::InvalidText),
        }
    }
}

/// A value that can be written in the wire format.
pub trait Encode: View {
    /// The bytes that stand for a value.
    spec fn wire(v: Self::V) -> Seq<u8>;

    /// Whether every length inside a value can be announced in four bytes.
    /// Only such a value has an honest encoding.
    spec fn fits(v: Self::V) -> bool;

    /// The exact number of bytes that [`Encode::encode`] appends, or
    /// [`AgentError::TooLong`] when that number is beyond `usize`.
    fn encoded_len(&self) -> (r: Result<usize, AgentError>)
        ensures
            Self::wire(self@).len() <= usize::MAX ==> r == Ok::<usize, AgentError>(
                Self::wire(self@).len() as usize,
            ),
            Self::wire(self@).len() > usize::MAX ==> r == Err::<usize, AgentError>(
                AgentError::TooLong,
            ),
    ;

    /// Appends the encoding of the value; or, when a length in it cannot be
    /// announced, appends nothing and reports [`AgentError::TooLong`].
    fn encode(&self, out: &mut Vec<u8>) -> (r: Result<(), AgentError>)
        ensures
            Self::fits(self@) ==> r is Ok && final(out)@ == old(out)@ + Self::wire(self@),
            !Self::fits(self@) ==> r == Err::<(), AgentError>(AgentError::TooLong) && final(out)@
                == old(out)@,
    ;
}

/// A value that can be read from the wire format.
pub trait Decode: View + Sized {
    /// Reads a value from the front of `s`: what it stands for and the
    /// count of bytes used, or the reason why no value is there.
    spec fn parse(s: Seq<u8>) -> Result<(Self::V, int), AgentError>;

    /// Reads a value at the cursor and moves the cursor past it. After an
    /// error the cursor is of no further use.
    fn decode(reader: &mut Reader<'_>) -> (r: Result<Self, AgentError>)
        ensures
            match Self::parse(old(reader).remaining()) {
                Ok((v, used)) => r matches Ok(m) && m@ == v && final(reader).remaining() == old(
                    reader,
                ).remaining().skip(used),
                Err(e) => r matches Err(f) && f == e,
            },
    ;
}

} // verus!
