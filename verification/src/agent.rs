//! Framing: one message per frame, each frame a length in four bytes and
//! then that many bytes of message.
//!
//! The codec works on the byte buffers of the `bytes` crate, so that a
//! transport can hand it what has arrived and take from it what is to be
//! sent.

use crate::error::AgentError;
use crate::wire::{
    lemma_parse_string_wire, len_fits, parse_string, put_u32, string_wire, u32_value, Decode,
    Encode, Reader, MAX_LEN,
};
use bytes::{Buf, BufMut, BytesMut};
use core::marker::PhantomData;
use vstd::prelude::*;
use vstd::slice::slice_subrange;

verus! {

broadcast use crate::wire::lemma_u32_bytes_len;

/// `bytes::BytesMut`, the growable byte buffer of the `bytes` crate. What
/// it holds is spoken of through [`buffered`].
#[verifier::external_type_specification]
#[verifier::external_body]
pub struct ExBytesMut(BytesMut);

/// The bytes that a buffer holds, first to last.
pub uninterp spec fn buffered(buf: BytesMut) -> Seq<u8>;

/// The most bytes that a buffer can hold: `isize::MAX`.
pub open spec fn buffer_limit() -> int {
    (usize::MAX / 2) as int
}

/// `BytesMut`'s view as a slice (its `Deref`): all the bytes it holds.
#[verifier::external_body]
fn buffer_bytes(buf: &BytesMut) -> (r: &[u8])
    ensures
        r@ == buffered(*buf),
{
    &buf[..]
}

/// `Buf::advance` on a `BytesMut`: drops the first `count` bytes and keeps
/// the rest. It panics when asked to drop more than are held, which the
/// precondition rules out.
#[verifier::external_body]
fn buffer_advance(buf: &mut BytesMut, count: usize)
    requires
        count <= buffered(*old(buf)).len(),
    ensures
        buffered(*final(buf)) == buffered(*old(buf)).skip(count as int),
{
    buf.advance(count)
}

/// `BufMut::put` on a `BytesMut`, given a slice: appends the slice. It can
/// panic only where the buffer cannot grow by that much, which takes more
/// than `isize::MAX` bytes in all; the precondition rules that out.
#[verifier::external_body]
fn buffer_put(buf: &mut BytesMut, bytes: &[u8])
    requires
        buffered(*old(buf)).len() + bytes@.len() <= buffer_limit(),
    ensures
        buffered(*final(buf)) == buffered(*old(buf)) + bytes@,
{
    buf.put(bytes)
}

/// A message's bytes as a frame: their count in four bytes, then the bytes.
pub open spec fn frame(payload: Seq<u8>) -> Seq<u8> {
    string_wire(payload)
}

/// The payload of the frame at the front of `buf` and the length of that
/// frame, once all of the frame is there.
pub open spec fn first_frame(buf: Seq<u8>) -> Option<(Seq<u8>, int)> {
    match parse_string(buf) {
        Ok(found) => Some(found),
        Err(_) => None,
    }
}

/// A frame is found again at the front of whatever follows it.
pub proof fn lemma_first_frame_of_frame(payload: Seq<u8>, tail: Seq<u8>)
    requires
        len_fits(payload.len()),
    ensures
        first_frame(frame(payload) + tail) == Some((payload, frame(payload).len() as int)),
{
    lemma_parse_string_wire(payload, tail);
}

/// As long as any byte of a frame is missing, no frame is found.
pub proof fn lemma_partial_frame_stalls(payload: Seq<u8>, held: int)
    requires
        len_fits(payload.len()),
        0 <= held < frame(payload).len(),
    ensures
        first_frame(frame(payload).take(held)) is None,
{
    let whole = frame(payload);
    let part = whole.take(held);
    lemma_parse_string_wire(payload, Seq::<u8>::empty());
    assert(whole + Seq::<u8>::empty() =~= whole);
    if held >= 4 {
        reveal(u32_value);
        assert(u32_value(part) == u32_value(whole));
    }
}

/// A message that is read back from its own bytes is read back from its
/// frame: the frame is found whole at the front of whatever follows it, and
/// its payload decodes to the message.
pub proof fn lemma_framed_round_trip<T: Encode + Decode>(v: T::V, tail: Seq<u8>)
    requires
        len_fits(T::wire(v).len()),
        T::parse(T::wire(v)) == Ok::<(T::V, int), AgentError>((v, T::wire(v).len() as int)),
    ensures
        first_frame(frame(T::wire(v)) + tail) matches Some((payload, used)) && used == 4 + T::wire(
            v,
        ).len() && T::parse(payload) == Ok::<(T::V, int), AgentError>(
            (v, T::wire(v).len() as int),
        ),
{
    lemma_first_frame_of_frame(T::wire(v), tail);
}

/// Cuts a stream of bytes into messages of type `Input` and writes messages
/// of type `Output` into a stream of bytes.
#[derive(Debug)]
pub struct Codec<Input, Output>(PhantomData<Input>, PhantomData<Output>);

impl<Input, Output> Default for Codec<Input, Output> {
    /// A codec. It keeps nothing between calls, so one is as good as another.
    fn default() -> Self {
        Codec(PhantomData, PhantomData)
    }
}

impl<Input: Decode, Output: Encode> Codec<Input, Output> {
    /// Whether `item` can be framed and appended to a buffer that holds
    /// `held` bytes: its lengths can be announced, its own length too, and
    /// the buffer has room.
    pub open spec fn can_send(item: Output::V, held: nat) -> bool {
        &&& Output::fits(item)
        &&& len_fits(Output::wire(item).len())
        &&& held + 4 + Output::wire(item).len() <= buffer_limit()
    }

    /// Takes one message from the front of `src`.
    ///
    /// While the frame at the front is not all there, nothing is taken and
    /// nothing is wrong. Once it is, the message is decoded from the frame's
    /// payload and the whole frame leaves `src`, including any bytes of
    /// payload that the message did not need. A payload that does not decode
    /// is an error, and `src` stays as it was.
    pub fn decode(&mut self, src: &mut BytesMut) -> (r: Result<Option<Input>, AgentError>)
        ensures
            match first_frame(buffered(*old(src))) {
                None => r matches Ok(None) && buffered(*final(src)) == buffered(*old(src)),
                Some((payload, used)) => match Input::parse(payload) {
                    Ok((v, _)) => {
                        &&& r matches Ok(Some(m)) && m@ == v
                        &&& buffered(*final(src)) == buffered(*old(src)).skip(used)
                    },
                    Err(e) => {
                        &&& r matches Err(f) && f == e
                        &&& buffered(*final(src)) == buffered(*old(src))
                    },
                },
            },
    {
        let bytes = buffer_bytes(src);
        let mut prefix = Reader::new(bytes);
        let length: usize = match prefix.read_u32() {
            Ok(n) => n as usize,
            Err(_) => {
                return Ok(None);
            },
        };
        if bytes.len() - 4 < length {
            return Ok(None);
        }
        let payload = slice_subrange(bytes, 4, 4 + length);
        let mut reader = Reader::new(payload);
        let message = Input::decode(&mut reader)?;
        buffer_advance(src, 4 + length);
        Ok(Some(message))
    }

    /// Appends `item` to `dst` as one frame, or leaves `dst` as it was
    /// when `item` cannot be sent.
    pub fn encode(&mut self, item: Output, dst: &mut BytesMut) -> (r: Result<(), AgentError>)
        ensures
            Self::can_send(item@, buffered(*old(dst)).len()) ==> r is Ok && buffered(*final(dst))
                == buffered(*old(dst)) + frame(Output::wire(item@)),
            !Self::can_send(item@, buffered(*old(dst)).len()) ==> r == Err::<(), AgentError>(
                AgentError::TooLong,
            ) && buffered(*final(dst)) == buffered(*old(dst)),
    {
        let len = item.encoded_len()?;
        if len > MAX_LEN {
            return Err(AgentError::TooLong);
        }
        let mut bytes: Vec<u8> = Vec::new();
        put_u32(&mut bytes, len as u32);
        item.encode(&mut bytes)?;
        assert(bytes@ =~= frame(Output::wire(item@)));
        let held = buffer_bytes(dst).len();
        let limit: usize = usize::MAX / 2;
        if held > limit || bytes.len() > limit - held {
            return Err(AgentError::TooLong);
        }
        buffer_put(dst, bytes.as_slice());
        Ok(())
    }
}

} // verus!
