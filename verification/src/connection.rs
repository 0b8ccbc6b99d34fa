//! One connection, as a state machine.
//!
//! The transport lives outside this crate. It reports what happened as an
//! [`Event`], and is told what to do next as an [`Action`]. Requests are
//! served one at a time: the response to one is on its way before the next
//! is looked at.

use crate::agent::{first_frame, frame, lemma_framed_round_trip};
use crate::error::AgentError;
use crate::messages::{
    identities_wire, lemma_message_round_trip, Message, MessageView, Response, ResponseView,
};
use crate::sign::SignRequestView;
use crate::signature::{HashAlg, SignatureView};
use crate::storage::KeyStorage;
use crate::wire::{
    lemma_parse_string_wire, len_bytes, len_fits, string_wire, text_wire, u32_bytes, Decode,
    Encode,
};
use vstd::prelude::*;
use vstd::utf8::encode_utf8;

verus! {

broadcast use crate::wire::lemma_u32_bytes_len;

/// Where a connection stands. A request is dispatched within one step,
/// between its arrival and the handing over of its response, so dispatching
/// is no state of its own.
#[derive(Clone, Copy, Debug, PartialEq, Eq, Structural)]
pub enum ConnectionState {
    /// Waiting for the next request.
    AwaitingRequest,
    /// A response has been handed over and is being written.
    SendingResponse,
    /// The connection is over.
    Closed,
}

/// What the transport reports.
#[derive(Debug)]
pub enum Event {
    /// A request was decoded.
    Request(Message),
    /// The peer closed its side.
    EndOfStream,
    /// Reading, decoding or writing failed.
    Failed(AgentError),
    /// The response was written.
    Sent,
}

/// What an [`Event`] stands for.
pub enum EventView {
    Request(MessageView),
    EndOfStream,
    Failed(AgentError),
    Sent,
}

impl View for Event {
    type V = EventView;

    open spec fn view(&self) -> EventView {
        match self {
            Event::Request(msg) => EventView::Request(msg@),
            Event::EndOfStream => EventView::EndOfStream,
            Event::Failed(e) => EventView::Failed(*e),
            Event::Sent => EventView::Sent,
        }
    }
}

/// What the transport is to do next.
#[derive(Debug)]
pub enum Action {
    /// Wait for the next request.
    Receive,
    /// Write this response.
    Send(Response),
    /// Drop the connection.
    Close,
}

/// What an [`Action`] stands for.
pub enum ActionView {
    Receive,
    Send(ResponseView),
    Close,
}

impl View for Action {
    type V = ActionView;

    open spec fn view(&self) -> ActionView {
        match self {
            Action::Receive => ActionView::Receive,
            Action::Send(response) => ActionView::Send(response@),
            Action::Close => ActionView::Close,
        }
    }
}

impl KeyStorage {
    /// The moves of a connection.
    ///
    /// A request that arrives while one is awaited is answered. Once the
    /// answer is written the next request is awaited. The end of the
    /// stream, any failure, and any event out of turn close the connection,
    /// and a closed connection stays closed. Nothing is sent but in answer
    /// to a request.
    pub open spec fn steps(
        self,
        state: ConnectionState,
        event: EventView,
        next: ConnectionState,
        action: ActionView,
    ) -> bool {
        match (state, event) {
            (ConnectionState::AwaitingRequest, EventView::Request(msg)) => {
                &&& next == ConnectionState::SendingResponse
                &&& action matches ActionView::Send(response)
                &&& self.answers(msg, response)
            },
            (ConnectionState::SendingResponse, EventView::Sent) => {
                &&& next == ConnectionState::AwaitingRequest
                &&& action == ActionView::Receive
            },
            _ => next == ConnectionState::Closed && action == ActionView::Close,
        }
    }

    /// Takes a connection one step on: from where it stands and what
    /// happened to where it stands next and what is to be done.
    pub fn handle_socket(&self, state: ConnectionState, event: Event) -> (r: (
        ConnectionState,
        Action,
    ))
        ensures
            self.steps(state, event@, r.0, r.1@),
    {
        match (state, event) {
            (ConnectionState::AwaitingRequest, Event::Request(msg)) => {
                let response = self.respond(msg);
                (ConnectionState::SendingResponse, Action::Send(response))
            },
            (ConnectionState::SendingResponse, Event::Sent) => (
                ConnectionState::AwaitingRequest,
                Action::Receive,
            ),
            _ => (ConnectionState::Closed, Action::Close),
        }
    }
}

/// A connection that is closed stays closed and sends nothing.
pub proof fn lemma_closed_is_final(
    store: KeyStorage,
    event: EventView,
    next: ConnectionState,
    action: ActionView,
)
    requires
        store.steps(ConnectionState::Closed, event, next, action),
    ensures
        next == ConnectionState::Closed,
        action == ActionView::Close,
{
}

/// A failure closes the connection and sends nothing, wherever the
/// connection stood.
pub proof fn lemma_failure_closes(
    store: KeyStorage,
    state: ConnectionState,
    error: AgentError,
    next: ConnectionState,
    action: ActionView,
)
    requires
        store.steps(state, EventView::Failed(error), next, action),
    ensures
        next == ConnectionState::Closed,
        action == ActionView::Close,
{
}

/// The five bytes `0 0 0 1 11` are one frame, and the frame is a request
/// for the identities.
pub proof fn lemma_request_identities_frame(tail: Seq<u8>)
    ensures
        first_frame(seq![0u8, 0u8, 0u8, 1u8, 11u8] + tail) == Some((seq![11u8], 5int)),
        Message::parse(seq![11u8]) == Ok::<(MessageView, int), AgentError>(
            (MessageView::RequestIdentities, 1),
        ),
{
    let payload = seq![11u8];
    reveal(u32_bytes);
    assert(frame(payload) =~= seq![0u8, 0u8, 0u8, 1u8, 11u8]);
    lemma_parse_string_wire(payload, tail);
}

/// A well-formed request in its frame is read back whole: the frame is
/// found at the front of whatever follows it, and its payload is the
/// request.
pub proof fn lemma_framed_request_is_read(request: MessageView, tail: Seq<u8>)
    requires
        request.wf(),
        len_fits(Message::wire(request).len()),
    ensures
        first_frame(frame(Message::wire(request)) + tail) matches Some((payload, used)) && used
            == 4 + Message::wire(request).len() && Message::parse(payload) == Ok::<
            (MessageView, int),
            AgentError,
        >((request, Message::wire(request).len() as int)),
{
    lemma_message_round_trip(request, Seq::<u8>::empty());
    assert(Message::wire(request) + Seq::<u8>::empty() =~= Message::wire(request));
    lemma_framed_round_trip::<Message>(request, tail);
}

/// What a store of one identity answers to a request for the identities,
/// byte for byte: the tag 12, the count 1, the identity's public key as a
/// string and its comment as a text; and the frame around it announces
/// exactly that many bytes.
pub proof fn lemma_one_identity_listed(store: KeyStorage, response: ResponseView)
    requires
        store.identities().len() == 1,
        store.answers(MessageView::RequestIdentities, response),
    ensures
        Response::wire(response) == seq![12u8] + u32_bytes(1) + string_wire(
            store.identities()[0].key(),
        ) + text_wire(store.identities()[0].comment@),
        Response::wire(response).len() == 13 + store.identities()[0].key().len() + encode_utf8(
            store.identities()[0].comment@,
        ).len(),
        frame(Response::wire(response)) == len_bytes(Response::wire(response).len())
            + Response::wire(response),
{
    let listed = store.listing();
    let key = store.identities()[0].key();
    let comment = store.identities()[0].comment@;
    assert(listed.len() == 1);
    assert(listed.drop_last() =~= Seq::empty());
    assert(identities_wire(listed.drop_last()) =~= Seq::<u8>::empty());
    assert(identities_wire(listed) =~= string_wire(key) + text_wire(comment));
    assert(Response::wire(response) =~= seq![12u8] + u32_bytes(1) + string_wire(key) + text_wire(
        comment,
    ));
}

/// What a signature that answers a request looks like, byte for byte: the
/// tag 14, then one string that holds the name of the hash that the flags
/// ask for, as a text, and the raw signature, as a string. With neither
/// hash bit set the name is `ssh-rsa`, which takes the bytes
/// `0 0 0 7 s s h - r s a`.
pub proof fn lemma_signature_answer(
    store: KeyStorage,
    request: SignRequestView,
    signature: SignatureView,
)
    requires
        store.answers(MessageView::SignRequest(request), ResponseView::Signature(signature)),
    ensures
        Response::wire(ResponseView::Signature(signature)) == seq![14u8] + string_wire(
            text_wire(HashAlg::spec_from_flags(request.flags).spec_name()) + string_wire(
                signature.data,
            ),
        ),
        request.flags & 0x06 == 0 ==> signature.algorithm == HashAlg::Sha1,
        text_wire(HashAlg::Sha1.spec_name()) == seq![
            0u8,
            0u8,
            0u8,
            7u8,
            115u8,
            115u8,
            104u8,
            45u8,
            114u8,
            115u8,
            97u8,
        ],
{
    let flags = request.flags;
    assert(flags & 0x06 == 0 ==> flags & 0x04 == 0 && flags & 0x02 == 0) by (bit_vector);
    assert(Response::wire(ResponseView::Signature(signature)) =~= seq![14u8] + string_wire(
        text_wire(HashAlg::spec_from_flags(request.flags).spec_name()) + string_wire(
            signature.data,
        ),
    ));
    let name = "ssh-rsa"@;
    reveal_strlit("ssh-rsa");
    vstd::utf8::is_ascii_chars_encode_utf8(name);
    reveal(u32_bytes);
    assert(encode_utf8(name) =~= seq![115u8, 115u8, 104u8, 45u8, 114u8, 115u8, 97u8]);
    assert(text_wire(name) =~= seq![
        0u8,
        0u8,
        0u8,
        7u8,
        115u8,
        115u8,
        104u8,
        45u8,
        114u8,
        115u8,
        97u8,
    ]);
}

} // verus!
