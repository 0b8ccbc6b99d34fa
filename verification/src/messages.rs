//! The messages of the protocol: what a client asks and what the agent
//! answers, each with its bytes on the wire.

use crate::error::AgentError;
use crate::key::{canonical_key, is_canonical_key, KeyData};
use crate::sign::{lemma_sign_request_round_trip, SignRequest, SignRequestView};
use crate::signature::{lemma_signature_round_trip, Signature, SignatureView};
use crate::wire::{
    lemma_parse_string_wire, lemma_parse_text_wire, lemma_parse_u32_wire, len_bytes, len_fits,
    parse_string, parse_text, parse_u32, parse_u8, put_string, put_text, put_u32, put_u8,
    string_len, string_wire, text_wire, Decode, Encode, Reader, MAX_LEN,
};
use vstd::prelude::*;
use vstd::utf8::encode_utf8;

verus! {

broadcast use crate::wire::lemma_u32_bytes_len;

/// The tag of a request for the list of identities.
pub const TAG_REQUEST_IDENTITIES: u8 = 11;

/// The tag of a request for a signature.
pub const TAG_SIGN_REQUEST: u8 = 13;

/// The tag of an extension request.
pub const TAG_EXTENSION: u8 = 27;

/// The tag of a failure response.
pub const TAG_FAILURE: u8 = 5;

/// The tag of a success response.
pub const TAG_SUCCESS: u8 = 6;

/// The tag of a list of identities.
pub const TAG_IDENTITIES_ANSWER: u8 = 12;

/// The tag of a signature response.
pub const TAG_SIGN_RESPONSE: u8 = 14;

/// What a [`Message`] stands for.
pub enum MessageView {
    RequestIdentities,
    SignRequest(SignRequestView),
    Extension,
}

/// A request from a client.
#[derive(Debug, PartialEq, Eq)]
pub enum Message {
    /// Asks for the public keys that the agent holds.
    RequestIdentities,
    /// Asks for a signature.
    SignRequest(SignRequest),
    /// An extension request. Its payload is not looked at.
    Extension,
}

impl View for Message {
    type V = MessageView;

    open spec fn view(&self) -> MessageView {
        match self {
            Message::RequestIdentities => MessageView::RequestIdentities,
            Message::SignRequest(request) => MessageView::SignRequest(request@),
            Message::Extension => MessageView::Extension,
        }
    }
}

impl Clone for Message {
    fn clone(&self) -> (r: Self)
        ensures
            r@ == self@,
    {
        match self {
            Message::RequestIdentities => Message::RequestIdentities,
            Message::SignRequest(request) => Message::SignRequest(request.clone()),
            Message::Extension => Message::Extension,
        }
    }
}

impl MessageView {
    /// Whether the message is one that decoding can produce.
    pub open spec fn wf(self) -> bool {
        match self {
            MessageView::SignRequest(request) => request.wf(),
            _ => true,
        }
    }

    /// The byte that announces the variant.
    pub open spec fn id(self) -> u8 {
        match self {
            MessageView::RequestIdentities => TAG_REQUEST_IDENTITIES,
            MessageView::SignRequest(_) => TAG_SIGN_REQUEST,
            MessageView::Extension => TAG_EXTENSION,
        }
    }
}

impl Message {
    /// The byte that announces the variant.
    pub fn id(&self) -> (r: u8)
        ensures
            r == self@.id(),
    {
        match self {
            Message::RequestIdentities => TAG_REQUEST_IDENTITIES,
            Message::SignRequest(_) => TAG_SIGN_REQUEST,
            Message::Extension => TAG_EXTENSION,
        }
    }
}

impl Encode for Message {
    /// The tag, then the payload of a signature request; the other two
    /// variants are their tag alone.
    open spec fn wire(v: MessageView) -> Seq<u8> {
        match v {
            MessageView::SignRequest(request) => seq![v.id()] + SignRequest::wire(request),
            _ => seq![v.id()],
        }
    }

    open spec fn fits(v: MessageView) -> bool {
        match v {
            MessageView::SignRequest(request) => SignRequest::fits(request),
            _ => true,
        }
    }

    fn encoded_len(&self) -> (r: Result<usize, AgentError>) {
        match self {
            Message::SignRequest(request) => {
                let payload = request.encoded_len()?;
                match payload.checked_add(1) {
                    Some(all) => Ok(all),
                    None => Err(AgentError::TooLong),
                }
            },
            _ => Ok(1),
        }
    }

    fn encode(&self, out: &mut Vec<u8>) -> (r: Result<(), AgentError>) {
        let ghost before = out@;
        let start = out.len();
        put_u8(out, self.id());
        match self {
            Message::SignRequest(request) => {
                match request.encode(out) {
                    Ok(()) => {
                        assert(out@ =~= before + Self::wire(self@));
                        Ok(())
                    },
                    Err(e) => {
                        out.truncate(start);
                        assert(out@ =~= before);
                        Err(e)
                    },
                }
            },
            _ => Ok(()),
        }
    }
}

impl Decode for Message {
    /// A tag byte, and after the tag of a signature request its payload.
    /// A tag that names no request is an error.
    open spec fn parse(s: Seq<u8>) -> Result<(MessageView, int), AgentError> {
        match parse_u8(s) {
            Err(e) => Err(e),
            Ok((tag, _)) => if tag == TAG_REQUEST_IDENTITIES {
                Ok((MessageView::RequestIdentities, 1))
            } else if tag == TAG_SIGN_REQUEST {
                match SignRequest::parse(s.skip(1)) {
                    Err(e) => Err(e),
                    Ok((request, used)) => Ok((MessageView::SignRequest(request), 1 + used)),
                }
            } else if tag == TAG_EXTENSION {
                Ok((MessageView::Extension, 1))
            } else {
                Err(AgentError::UnknownMessage)
            },
        }
    }

    fn decode(reader: &mut Reader<'_>) -> (r: Result<Self, AgentError>) {
        let ghost s = reader.remaining();
        let tag = reader.read_u8()?;
        if tag == TAG_REQUEST_IDENTITIES {
            Ok(Message::RequestIdentities)
        } else if tag == TAG_SIGN_REQUEST {
            let ghost n = SignRequest::parse(s.skip(1))->Ok_0.1;
            let request = SignRequest::decode(reader)?;
            assert(s.skip(1).skip(n) =~= s.skip(1 + n));
            Ok(Message::SignRequest(request))
        } else if tag == TAG_EXTENSION {
            Ok(Message::Extension)
        } else {
            Err(AgentError::UnknownMessage)
        }
    }
}

/// A well-formed request is read back from its own bytes, whatever follows
/// them.
pub proof fn lemma_message_round_trip(v: MessageView, tail: Seq<u8>)
    requires
        v.wf(),
    ensures
        Message::parse(Message::wire(v) + tail) == Ok::<(MessageView, int), AgentError>(
            (v, Message::wire(v).len() as int),
        ),
{
    let s = Message::wire(v) + tail;
    assert(s[0] == v.id());
    match v {
        MessageView::SignRequest(request) => {
            assert(s.skip(1) =~= SignRequest::wire(request) + tail);
            lemma_sign_request_round_trip(request, tail);
        },
        _ => {},
    }
}

/// What an [`IdentityBlob`] stands for.
pub struct IdentityBlobView {
    pub pubkey: Seq<u8>,
    pub comment: Seq<char>,
}

/// One entry of the list of identities: a public key and its label.
#[derive(Debug, PartialEq, Eq)]
pub struct IdentityBlob {
    pub pubkey: KeyData,
    pub comment: String,
}

impl View for IdentityBlob {
    type V = IdentityBlobView;

    open spec fn view(&self) -> IdentityBlobView {
        IdentityBlobView { pubkey: self.pubkey@, comment: self.comment@ }
    }
}

impl Clone for IdentityBlob {
    fn clone(&self) -> (r: Self)
        ensures
            r@ == self@,
    {
        IdentityBlob { pubkey: self.pubkey.clone(), comment: self.comment.clone() }
    }
}

impl IdentityBlobView {
    /// Whether the entry is one that decoding can produce: its key is in
    /// canonical form, and both of its strings can announce their length.
    pub open spec fn wf(self) -> bool {
        is_canonical_key(self.pubkey) && IdentityBlob::fits(self)
    }
}

impl Encode for IdentityBlob {
    /// The key as a string, then the comment as a text.
    open spec fn wire(v: IdentityBlobView) -> Seq<u8> {
        string_wire(v.pubkey) + text_wire(v.comment)
    }

    open spec fn fits(v: IdentityBlobView) -> bool {
        len_fits(v.pubkey.len()) && len_fits(encode_utf8(v.comment).len())
    }

    fn encoded_len(&self) -> (r: Result<usize, AgentError>) {
        let key = string_len(self.pubkey.as_bytes().len())?;
        let comment = string_len(self.comment.as_str().as_bytes().len())?;
        match key.checked_add(comment) {
            Some(both) => Ok(both),
            None => Err(AgentError::TooLong),
        }
    }

    fn encode(&self, out: &mut Vec<u8>) -> (r: Result<(), AgentError>) {
        let ghost before = out@;
        let start = out.len();
        put_string(out, self.pubkey.as_bytes())?;
        match put_text(out, self.comment.as_str()) {
            Ok(()) => {
                assert(out@ =~= before + Self::wire(self@));
                Ok(())
            },
            Err(e) => {
                out.truncate(start);
                assert(out@ =~= before);
                Err(e)
            },
        }
    }
}

impl Decode for IdentityBlob {
    /// A string that must decode as a public key, then a text. The key is
    /// taken in canonical form.
    open spec fn parse(s: Seq<u8>) -> Result<(IdentityBlobView, int), AgentError> {
        match parse_string(s) {
            Err(e) => Err(e),
            Ok((blob, n1)) => match canonical_key(blob) {
                None => Err(AgentError::InvalidKey),
                Some(pubkey) => match parse_text(s.skip(n1)) {
                    Err(e) => Err(e),
                    Ok((comment, n2)) => Ok((IdentityBlobView { pubkey, comment }, n1 + n2)),
                },
            },
        }
    }

    fn decode(reader: &mut Reader<'_>) -> (r: Result<Self, AgentError>) {
        let ghost s = reader.remaining();
        let blob = reader.read_string()?;
        let ghost n1 = 4 + blob@.len() as int;
        let pubkey = KeyData::from_bytes(blob)?;
        let ghost n2 = parse_text(s.skip(n1))->Ok_0.1;
        let comment = reader.read_text()?;
        assert(s.skip(n1).skip(n2) =~= s.skip(n1 + n2));
        Ok(IdentityBlob { pubkey, comment })
    }
}

/// A well-formed entry is read back from its own bytes, whatever follows
/// them.
pub proof fn lemma_identity_blob_round_trip(v: IdentityBlobView, tail: Seq<u8>)
    requires
        v.wf(),
    ensures
        IdentityBlob::wire(v).len() == 8 + v.pubkey.len() + encode_utf8(v.comment).len(),
        IdentityBlob::parse(IdentityBlob::wire(v) + tail) == Ok::<
            (IdentityBlobView, int),
            AgentError,
        >((v, IdentityBlob::wire(v).len() as int)),
{
    let s = IdentityBlob::wire(v) + tail;
    let rest = text_wire(v.comment) + tail;
    assert(s =~= string_wire(v.pubkey) + rest);
    lemma_parse_string_wire(v.pubkey, rest);
    assert(s.skip(4 + v.pubkey.len() as int) =~= rest);
    lemma_parse_text_wire(v.comment, tail);
}

/// What each entry of a list stands for, in order.
pub open spec fn blobs_view(ids: Seq<IdentityBlob>) -> Seq<IdentityBlobView> {
    ids.map_values(|id: IdentityBlob| id@)
}

/// The entries of a list on the wire, one after the other.
pub open spec fn identities_wire(ids: Seq<IdentityBlobView>) -> Seq<u8>
    decreases ids.len(),
{
    if ids.len() == 0 {
        Seq::<u8>::empty()
    } else {
        identities_wire(ids.drop_last()) + IdentityBlob::wire(ids.last())
    }
}

/// Whether every entry is well formed.
pub open spec fn identities_wf(ids: Seq<IdentityBlobView>) -> bool {
    forall|i: int| 0 <= i < ids.len() ==> (#[trigger] ids[i]).wf()
}

/// Whether every entry can announce its lengths.
pub open spec fn identities_fit(ids: Seq<IdentityBlobView>) -> bool {
    forall|i: int| 0 <= i < ids.len() ==> IdentityBlob::fits(#[trigger] ids[i])
}

/// Reads `count` entries from the front of `s`.
pub open spec fn parse_identities(s: Seq<u8>, count: nat) -> Result<
    (Seq<IdentityBlobView>, int),
    AgentError,
>
    decreases count,
{
    if count == 0 {
        Ok((Seq::<IdentityBlobView>::empty(), 0))
    } else {
        match IdentityBlob::parse(s) {
            Err(e) => Err(e),
            Ok((first, used)) => prepend(
                first,
                used,
                parse_identities(s.skip(used), (count - 1) as nat),
            ),
        }
    }
}

/// The outcome of reading a list, given its first entry and the outcome of
/// reading the entries after it.
pub open spec fn prepend(
    first: IdentityBlobView,
    used: int,
    later: Result<(Seq<IdentityBlobView>, int), AgentError>,
) -> Result<(Seq<IdentityBlobView>, int), AgentError> {
    match later {
        Err(e) => Err(e),
        Ok((rest, more)) => Ok((seq![first] + rest, used + more)),
    }
}

/// The outcome of reading a list, given the entries already read and the
/// outcome of reading the entries still to come.
pub open spec fn resume(
    done: Seq<IdentityBlobView>,
    used: int,
    later: Result<(Seq<IdentityBlobView>, int), AgentError>,
) -> Result<(Seq<IdentityBlobView>, int), AgentError> {
    match later {
        Err(e) => Err(e),
        Ok((rest, more)) => Ok((done + rest, used + more)),
    }
}

/// Reading one more entry carries a partly read list one step on.
proof fn lemma_resume_step(
    done: Seq<IdentityBlobView>,
    used: int,
    first: IdentityBlobView,
    n: int,
    later: Result<(Seq<IdentityBlobView>, int), AgentError>,
)
    ensures
        resume(done, used, prepend(first, n, later)) == resume(done.push(first), used + n, later),
{
    match later {
        Err(_) => {},
        Ok((rest, more)) => {
            assert(done + (seq![first] + rest) =~= done.push(first) + rest);
        },
    }
}

/// The bytes of a list begin with the bytes of its first entry.
pub proof fn lemma_identities_wire_front(ids: Seq<IdentityBlobView>)
    requires
        ids.len() > 0,
    ensures
        identities_wire(ids) == IdentityBlob::wire(ids[0]) + identities_wire(ids.drop_first()),
    decreases ids.len(),
{
    if ids.len() == 1 {
        assert(ids.drop_last() =~= Seq::<IdentityBlobView>::empty());
        assert(ids.drop_first() =~= Seq::<IdentityBlobView>::empty());
        assert(identities_wire(ids) =~= IdentityBlob::wire(ids[0]) + identities_wire(
            ids.drop_first(),
        ));
    } else {
        lemma_identities_wire_front(ids.drop_last());
        assert(ids.drop_last().drop_first() =~= ids.drop_first().drop_last());
        assert(ids.drop_first().last() == ids.last());
        assert(ids.drop_last()[0] == ids[0]);
        assert(identities_wire(ids) =~= IdentityBlob::wire(ids[0]) + identities_wire(
            ids.drop_first(),
        ));
    }
}

/// The bytes of the first `k` entries are no longer than the bytes of all.
pub proof fn lemma_identities_wire_grows(ids: Seq<IdentityBlobView>, k: int)
    requires
        0 <= k <= ids.len(),
    ensures
        identities_wire(ids.take(k)).len() <= identities_wire(ids).len(),
    decreases ids.len() - k,
{
    if k == ids.len() {
        assert(ids.take(k) =~= ids);
    } else {
        lemma_identities_wire_grows(ids.drop_last(), k);
        assert(ids.drop_last().take(k) =~= ids.take(k));
    }
}

/// A list of well-formed entries is read back from its own bytes, whatever
/// follows them.
pub proof fn lemma_identities_round_trip(ids: Seq<IdentityBlobView>, tail: Seq<u8>)
    requires
        identities_wf(ids),
    ensures
        parse_identities(identities_wire(ids) + tail, ids.len()) == Ok::<
            (Seq<IdentityBlobView>, int),
            AgentError,
        >((ids, identities_wire(ids).len() as int)),
    decreases ids.len(),
{
    if ids.len() == 0 {
        assert(ids =~= Seq::<IdentityBlobView>::empty());
    } else {
        let first = ids[0];
        let rest = ids.drop_first();
        let later = identities_wire(rest) + tail;
        let s = identities_wire(ids) + tail;
        let used = IdentityBlob::wire(first).len() as int;
        assert(s == IdentityBlob::wire(first) + later) by {
            lemma_identities_wire_front(ids);
            assert(s =~= IdentityBlob::wire(first) + later);
        }
        assert(IdentityBlob::parse(s) == Ok::<(IdentityBlobView, int), AgentError>((first, used)))
            by {
            lemma_identity_blob_round_trip(first, later);
        }
        assert(s.skip(used) == later) by {
            assert(s.skip(used) =~= later);
        }
        assert(identities_wf(rest)) by {
            assert forall|i: int| 0 <= i < rest.len() implies (#[trigger] rest[i]).wf() by {
                assert(rest[i] == ids[i + 1]);
            }
        }
        assert(parse_identities(later, rest.len()) == Ok::<
            (Seq<IdentityBlobView>, int),
            AgentError,
        >((rest, identities_wire(rest).len() as int))) by {
            lemma_identities_round_trip(rest, tail);
        }
        assert(identities_wire(ids).len() == used + identities_wire(rest).len()) by {
            lemma_identities_wire_front(ids);
        }
        assert(seq![first] + rest =~= ids);
        assert(rest.len() == (ids.len() - 1) as nat);
    }
}

/// What a [`Response`] stands for.
pub enum ResponseView {
    Failure,
    Success,
    ListIdentities(Seq<IdentityBlobView>),
    Signature(SignatureView),
}

/// An answer from the agent.
#[derive(Debug, PartialEq, Eq)]
pub enum Response {
    /// The request could not be served.
    Failure,
    /// The request was taken note of.
    Success,
    /// The identities that the agent holds, in the order of its store.
    ListIdentities(Vec<IdentityBlob>),
    /// The signature that was asked for.
    Signature(Signature),
}

impl View for Response {
    type V = ResponseView;

    open spec fn view(&self) -> ResponseView {
        match self {
            Response::Failure => ResponseView::Failure,
            Response::Success => ResponseView::Success,
            Response::ListIdentities(ids) => ResponseView::ListIdentities(blobs_view(ids@)),
            Response::Signature(signature) => ResponseView::Signature(signature@),
        }
    }
}

impl Clone for Response {
    fn clone(&self) -> (r: Self)
        ensures
            r@ == self@,
    {
        match self {
            Response::Failure => Response::Failure,
            Response::Success => Response::Success,
            Response::ListIdentities(ids) => {
                let mut copies: Vec<IdentityBlob> = Vec::new();
                let mut i: usize = 0;
                while i < ids.len()
                    invariant
                        i <= ids@.len(),
                        copies@.len() == i,
                        forall|j: int| 0 <= j < i ==> (#[trigger] copies@[j])@ == ids@[j]@,
                    decreases ids@.len() - i,
                {
                    copies.push(ids[i].clone());
                    i = i + 1;
                }
                assert(blobs_view(copies@) =~= blobs_view(ids@));
                Response::ListIdentities(copies)
            },
            Response::Signature(signature) => Response::Signature(signature.clone()),
        }
    }
}

impl ResponseView {
    /// Whether the response is one that decoding can produce.
    pub open spec fn wf(self) -> bool {
        match self {
            ResponseView::ListIdentities(ids) => len_fits(ids.len()) && identities_wf(ids),
            ResponseView::Signature(signature) => Signature::fits(signature),
            _ => true,
        }
    }

    /// The byte that announces the variant.
    pub open spec fn id(self) -> u8 {
        match self {
            ResponseView::Failure => TAG_FAILURE,
            ResponseView::Success => TAG_SUCCESS,
            ResponseView::ListIdentities(_) => TAG_IDENTITIES_ANSWER,
            ResponseView::Signature(_) => TAG_SIGN_RESPONSE,
        }
    }

    /// The bytes after the tag.
    pub open spec fn payload(self) -> Seq<u8> {
        match self {
            ResponseView::ListIdentities(ids) => len_bytes(ids.len()) + identities_wire(ids),
            ResponseView::Signature(signature) => Signature::wire(signature),
            _ => Seq::<u8>::empty(),
        }
    }
}

impl Response {
    /// The byte that announces the variant.
    pub fn id(&self) -> (r: u8)
        ensures
            r == self@.id(),
    {
        match self {
            Response::Failure => TAG_FAILURE,
            Response::Success => TAG_SUCCESS,
            Response::ListIdentities(_) => TAG_IDENTITIES_ANSWER,
            Response::Signature(_) => TAG_SIGN_RESPONSE,
        }
    }
}

/// The bytes of the first `i + 1` entries are those of the first `i`, then
/// those of the next.
proof fn lemma_identities_wire_next(all: Seq<IdentityBlobView>, i: int)
    requires
        0 <= i < all.len(),
    ensures
        identities_wire(all.take(i + 1)) == identities_wire(all.take(i)) + IdentityBlob::wire(
            all[i],
        ),
        identities_wire(all.take(i + 1)).len() <= identities_wire(all).len(),
{
    assert(all.take(i + 1).drop_last() =~= all.take(i));
    assert(all.take(i + 1).last() == all[i]);
    lemma_identities_wire_grows(all, i + 1);
}

/// The number of bytes that the entries of a list take on the wire, with
/// the four bytes of their count.
fn identities_len(ids: &Vec<IdentityBlob>) -> (r: Result<usize, AgentError>)
    ensures
        4 + identities_wire(blobs_view(ids@)).len() <= usize::MAX ==> r == Ok::<usize, AgentError>(
            (4 + identities_wire(blobs_view(ids@)).len()) as usize,
        ),
        4 + identities_wire(blobs_view(ids@)).len() > usize::MAX ==> r == Err::<
            usize,
            AgentError,
        >(AgentError::TooLong),
{
    let ghost all = blobs_view(ids@);
    let mut total: usize = 4;
    let mut i: usize = 0;
    assert(all.take(0) =~= Seq::<IdentityBlobView>::empty());
    while i < ids.len()
        invariant
            i <= ids@.len(),
            all == blobs_view(ids@),
            total == 4 + identities_wire(all.take(i as int)).len(),
        decreases ids@.len() - i,
    {
        proof {
            lemma_identities_wire_next(all, i as int);
        }
        let entry = match ids[i].encoded_len() {
            Ok(entry) => entry,
            Err(e) => {
                return Err(e);
            },
        };
        total = match total.checked_add(entry) {
            Some(sum) => sum,
            None => {
                return Err(AgentError::TooLong);
            },
        };
        i = i + 1;
    }
    assert(all.take(i as int) =~= all);
    Ok(total)
}

/// Appends the entries of a list, or reports the first that cannot announce
/// its lengths. What such a failure leaves behind in `out` is for the caller
/// to remove.
fn put_identities(out: &mut Vec<u8>, ids: &Vec<IdentityBlob>) -> (r: Result<(), AgentError>)
    ensures
        identities_fit(blobs_view(ids@)) ==> r is Ok && final(out)@ == old(out)@
            + identities_wire(blobs_view(ids@)),
        !identities_fit(blobs_view(ids@)) ==> r == Err::<(), AgentError>(AgentError::TooLong),
        final(out)@.len() >= old(out)@.len(),
        final(out)@.take(old(out)@.len() as int) == old(out)@,
{
    let ghost all = blobs_view(ids@);
    let ghost before = out@;
    let mut i: usize = 0;
    assert(all.take(0) =~= Seq::<IdentityBlobView>::empty());
    assert(out@ =~= before + identities_wire(all.take(0)));
    while i < ids.len()
        invariant
            i <= ids@.len(),
            all == blobs_view(ids@),
            before == old(out)@,
            out@ == before + identities_wire(all.take(i as int)),
            forall|j: int| 0 <= j < i ==> IdentityBlob::fits(#[trigger] all[j]),
        decreases ids@.len() - i,
    {
        let ghost sofar = out@;
        proof {
            lemma_identities_wire_next(all, i as int);
        }
        match ids[i].encode(out) {
            Ok(()) => {},
            Err(e) => {
                assert(!IdentityBlob::fits(all[i as int]));
                assert(out@.take(before.len() as int) =~= before);
                return Err(e);
            },
        }
        assert(out@ == before + identities_wire(all.take(i + 1))) by {
            assert(sofar + IdentityBlob::wire(all[i as int]) =~= before + (identities_wire(
                all.take(i as int),
            ) + IdentityBlob::wire(all[i as int])));
        }
        i = i + 1;
    }
    assert(all.take(i as int) =~= all);
    assert(out@.take(before.len() as int) =~= before);
    Ok(())
}

/// Reads `count` entries at the cursor.
fn get_identities(reader: &mut Reader<'_>, count: u32) -> (r: Result<Vec<IdentityBlob>, AgentError>)
    ensures
        match parse_identities(old(reader).remaining(), count as nat) {
            Ok((v, used)) => {
                &&& r matches Ok(ids) && blobs_view(ids@) == v
                &&& final(reader).remaining() == old(reader).remaining().skip(used)
                &&& 0 <= used <= old(reader).remaining().len()
            },
            Err(e) => r matches Err(f) && f == e,
        },
{
    let ghost list = reader.remaining();
    let ghost used: int = 0;
    let mut ids: Vec<IdentityBlob> = Vec::new();
    let mut i: u32 = 0;
    proof {
        assert(list.skip(0) =~= list);
        assert(blobs_view(ids@) =~= Seq::<IdentityBlobView>::empty());
        lemma_resume_nothing(parse_identities(list, count as nat));
    }
    while i < count
        invariant
            i <= count,
            list == old(reader).remaining(),
            0 <= used <= list.len(),
            reader.remaining() == list.skip(used),
            parse_identities(list, count as nat) == resume(
                blobs_view(ids@),
                used,
                parse_identities(list.skip(used), (count - i) as nat),
            ),
        decreases count - i,
    {
        let ghost here = list.skip(used);
        let ghost done = blobs_view(ids@);
        let ghost left = (count - i) as nat;
        proof {
            lemma_parse_identities_step(here, left);
        }
        let entry = match IdentityBlob::decode(reader) {
            Ok(entry) => entry,
            Err(e) => {
                return Err(e);
            },
        };
        let ghost n = IdentityBlob::parse(here)->Ok_0.1;
        proof {
            lemma_resume_step(
                done,
                used,
                entry@,
                n,
                parse_identities(here.skip(n), (left - 1) as nat),
            );
            crate::wire::lemma_skip_skip(list, used, n);
        }
        ids.push(entry);
        assert(blobs_view(ids@) =~= done.push(entry@));
        proof {
            used = used + n;
        }
        i = i + 1;
    }
    proof {
        assert(blobs_view(ids@) + Seq::<IdentityBlobView>::empty() =~= blobs_view(ids@));
    }
    Ok(ids)
}

/// Nothing read yet, the outcome of reading a list is the outcome of
/// reading all of it.
proof fn lemma_resume_nothing(later: Result<(Seq<IdentityBlobView>, int), AgentError>)
    ensures
        resume(Seq::<IdentityBlobView>::empty(), 0, later) == later,
{
    match later {
        Err(_) => {},
        Ok((rest, more)) => {
            assert(Seq::<IdentityBlobView>::empty() + rest =~= rest);
        },
    }
}

/// Reading a list that is not empty starts with reading one entry, which
/// takes up part of what is there.
proof fn lemma_parse_identities_step(s: Seq<u8>, count: nat)
    requires
        count > 0,
    ensures
        match IdentityBlob::parse(s) {
            Err(e) => parse_identities(s, count) == Err::<
                (Seq<IdentityBlobView>, int),
                AgentError,
            >(e),
            Ok((first, used)) => 8 <= used <= s.len() && parse_identities(s, count) == prepend(
                first,
                used,
                parse_identities(s.skip(used), (count - 1) as nat),
            ),
        },
{
}

impl Encode for Response {
    /// The tag, then the payload: for a list, the count of its entries in
    /// four bytes and the entries; for a signature, the signature.
    open spec fn wire(v: ResponseView) -> Seq<u8> {
        seq![v.id()] + v.payload()
    }

    open spec fn fits(v: ResponseView) -> bool {
        match v {
            ResponseView::ListIdentities(ids) => len_fits(ids.len()) && identities_fit(ids),
            ResponseView::Signature(signature) => Signature::fits(signature),
            _ => true,
        }
    }

    fn encoded_len(&self) -> (r: Result<usize, AgentError>) {
        let payload = match self {
            Response::ListIdentities(ids) => identities_len(ids)?,
            Response::Signature(signature) => signature.encoded_len()?,
            Response::Failure => 0,
            Response::Success => 0,
        };
        match payload.checked_add(1) {
            Some(all) => Ok(all),
            None => Err(AgentError::TooLong),
        }
    }

    fn encode(&self, out: &mut Vec<u8>) -> (r: Result<(), AgentError>) {
        let ghost before = out@;
        let start = out.len();
        put_u8(out, self.id());
        let written = match self {
            Response::Failure => Ok(()),
            Response::Success => Ok(()),
            Response::ListIdentities(ids) => {
                if ids.len() > MAX_LEN {
                    Err(AgentError::TooLong)
                } else {
                    put_u32(out, ids.len() as u32);
                    put_identities(out, ids)
                }
            },
            Response::Signature(signature) => signature.encode(out),
        };
        match written {
            Ok(()) => {
                assert(out@ =~= before + Self::wire(self@));
                Ok(())
            },
            Err(e) => {
                out.truncate(start);
                assert(out@ =~= before);
                Err(e)
            },
        }
    }
}

impl Decode for Response {
    /// A tag byte, then the payload that the tag calls for. A tag that
    /// names no response is an error.
    open spec fn parse(s: Seq<u8>) -> Result<(ResponseView, int), AgentError> {
        match parse_u8(s) {
            Err(e) => Err(e),
            Ok((tag, _)) => if tag == TAG_FAILURE {
                Ok((ResponseView::Failure, 1))
            } else if tag == TAG_SUCCESS {
                Ok((ResponseView::Success, 1))
            } else if tag == TAG_IDENTITIES_ANSWER {
                match parse_u32(s.skip(1)) {
                    Err(e) => Err(e),
                    Ok((count, _)) => match parse_identities(s.skip(5), count as nat) {
                        Err(e) => Err(e),
                        Ok((ids, used)) => Ok((ResponseView::ListIdentities(ids), 5 + used)),
                    },
                }
            } else if tag == TAG_SIGN_RESPONSE {
                match Signature::parse(s.skip(1)) {
                    Err(e) => Err(e),
                    Ok((signature, used)) => Ok((ResponseView::Signature(signature), 1 + used)),
                }
            } else {
                Err(AgentError::UnknownMessage)
            },
        }
    }

    fn decode(reader: &mut Reader<'_>) -> (r: Result<Self, AgentError>) {
        let ghost s = reader.remaining();
        let tag = reader.read_u8()?;
        if tag == TAG_FAILURE {
            Ok(Response::Failure)
        } else if tag == TAG_SUCCESS {
            Ok(Response::Success)
        } else if tag == TAG_IDENTITIES_ANSWER {
            let count = reader.read_u32()?;
            assert(s.skip(1).skip(4) =~= s.skip(5));
            let ghost used = parse_identities(s.skip(5), count as nat)->Ok_0.1;
            let ids = get_identities(reader, count)?;
            proof {
                crate::wire::lemma_skip_skip(s, 5, used);
            }
            Ok(Response::ListIdentities(ids))
        } else if tag == TAG_SIGN_RESPONSE {
            let ghost n = Signature::parse(s.skip(1))->Ok_0.1;
            let signature = Signature::decode(reader)?;
            assert(s.skip(1).skip(n) =~= s.skip(1 + n));
            Ok(Response::Signature(signature))
        } else {
            Err(AgentError::UnknownMessage)
        }
    }
}

/// A well-formed response is read back from its own bytes, whatever follows
/// them.
pub proof fn lemma_response_round_trip(v: ResponseView, tail: Seq<u8>)
    requires
        v.wf(),
    ensures
        Response::parse(Response::wire(v) + tail) == Ok::<(ResponseView, int), AgentError>(
            (v, Response::wire(v).len() as int),
        ),
{
    let s = Response::wire(v) + tail;
    assert(s[0] == v.id());
    match v {
        ResponseView::ListIdentities(ids) => {
            let count = ids.len() as u32;
            let list = identities_wire(ids) + tail;
            assert(s.skip(1) =~= len_bytes(ids.len()) + list);
            lemma_parse_u32_wire(count, list);
            crate::wire::lemma_u32_round_trip(count);
            assert(s.skip(5) =~= list);
            lemma_identities_round_trip(ids, tail);
        },
        ResponseView::Signature(signature) => {
            assert(s.skip(1) =~= Signature::wire(signature) + tail);
            lemma_signature_round_trip(signature, tail);
        },
        _ => {},
    }
}

} // verus!
