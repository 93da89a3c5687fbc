//! The client's side of a login: what to do next, given what happened.
//!
//! A login is one pass through connect, send, receive. The handshake makes
//! every decision of that pass and touches no socket: it hands out an
//! [`Action`], the caller performs it and reports the [`Event`] that came
//! of it, until the action is [`Action::Finish`]. Nothing is tried twice.

use crate::codec::{decode, send_message};
use crate::digest::{digest_text, get_hash};
use crate::framing::{
    framed_payload, is_first_sentinel, lemma_framed_payload_at, lemma_framed_payload_none,
    lemma_framed_payload_of_envelope, read_step, FrameReader, ReadEvent, ReadProgress,
    ReadProgressView, TransportError, READ_TIMEOUT_MS, SENTINEL,
};
use crate::message::{LoginStatus, Message, MessageView};
use crate::wire::{
    envelope, is_wire_text, lemma_parse_message_iff_wire_text,
    lemma_wire_text_holds_no_sentinel, parse_message, DecodeError,
};
use vstd::prelude::*;

verus! {

/// The TCP port on which the login server listens.
pub const PORT: u16 = 62100;

/// Longest wait for the connection to the server, in milliseconds.
pub const CONNECT_TIMEOUT_MS: u64 = 1000;

/// How a login attempt ended.
#[derive(Clone, Copy, Debug, PartialEq, Eq, Structural)]
pub enum LoginResult {
    /// No server address is set. Nothing was sent.
    NoServer,
    /// The connection could not be made, in time or at all.
    ConnectionTimeout,
    /// The connection was made and then failed, or the reply was no
    /// message.
    NetworkError,
    /// The server replied with a message that is no login reply.
    SomethingWentWrong,
    /// The server does not know the user.
    BadUser,
    /// The server knows the user and not the password.
    BadPass,
    /// The server accepted the login.
    Success,
}

/// What the caller is to do next.
#[derive(Debug)]
pub enum Action {
    /// Open a new connection to the server at `port`, and give up after
    /// `timeout_ms` milliseconds.
    Connect { port: u16, timeout_ms: u64 },
    /// Write all of these bytes to the connection.
    Send(Vec<u8>),
    /// Read one byte from the connection, and wait for it no longer than
    /// `timeout_ms` milliseconds.
    Receive { timeout_ms: u64 },
    /// Close the connection, if there is one: the login has ended.
    Finish(LoginResult),
}

/// What an [`Action`] holds, with its bytes as a sequence.
pub enum ActionView {
    Connect { port: u16, timeout_ms: u64 },
    Send(Seq<u8>),
    Receive { timeout_ms: u64 },
    Finish(LoginResult),
}

impl View for Action {
    type V = ActionView;

    open spec fn view(&self) -> ActionView {
        match *self {
            Action::Connect { port, timeout_ms } => ActionView::Connect { port, timeout_ms },
            Action::Send(bytes) => ActionView::Send(bytes@),
            Action::Receive { timeout_ms } => ActionView::Receive { timeout_ms },
            Action::Finish(result) => ActionView::Finish(result),
        }
    }
}

/// What came of the action that the handshake asked for last.
#[derive(Clone, Copy, Debug, PartialEq, Eq, Structural)]
pub enum Event {
    /// The connection stands.
    Connected,
    /// The connection could not be made.
    ConnectFailed,
    /// All bytes were written.
    Sent,
    /// Not all bytes could be written.
    SendFailed,
    /// What the read brought: a byte, or the reason why none came.
    Read(ReadEvent),
}

/// Where a login attempt stands.
#[derive(Debug)]
pub enum Handshake {
    /// Waiting for the connection. The request lies ready.
    Connecting { request: Vec<u8> },
    /// Waiting for the request to be written.
    Sending,
    /// Reading the reply.
    Receiving { reader: FrameReader },
    /// Ended.
    Finished { result: LoginResult },
}

/// What a [`Handshake`] holds, with its bytes as sequences.
pub enum HandshakeView {
    Connecting { request: Seq<u8> },
    Sending,
    Receiving { received: Seq<u8> },
    Finished { result: LoginResult },
}

impl View for Handshake {
    type V = HandshakeView;

    open spec fn view(&self) -> HandshakeView {
        match *self {
            Handshake::Connecting { request } => HandshakeView::Connecting { request: request@ },
            Handshake::Sending => HandshakeView::Sending,
            Handshake::Receiving { reader } => HandshakeView::Receiving { received: reader@ },
            Handshake::Finished { result } => HandshakeView::Finished { result },
        }
    }
}

/// The request that a login sends: the digests of the two credentials.
pub open spec fn login_request(username: Seq<char>, password: Seq<char>) -> MessageView {
    MessageView::LoginRequest { username: digest_text(username), password: digest_text(password) }
}

/// What a reply means for the login. Only a login reply is an answer; any
/// other message is out of place, and bytes that are no message count as a
/// failure of the network.
pub open spec fn outcome_of_reply(reply: Result<MessageView, DecodeError>) -> LoginResult {
    match reply {
        Ok(MessageView::LoginReply(LoginStatus::Accepted)) => LoginResult::Success,
        Ok(MessageView::LoginReply(LoginStatus::BadUser)) => LoginResult::BadUser,
        Ok(MessageView::LoginReply(LoginStatus::BadPass)) => LoginResult::BadPass,
        Ok(_) => LoginResult::SomethingWentWrong,
        Err(_) => LoginResult::NetworkError,
    }
}

/// The end of a login with `result`.
pub open spec fn finished(result: LoginResult) -> (HandshakeView, ActionView) {
    (HandshakeView::Finished { result }, ActionView::Finish(result))
}

/// How a login starts.
pub open spec fn handshake_start(has_server: bool, username: Seq<char>, password: Seq<char>) -> (
    HandshakeView,
    ActionView,
) {
    if has_server {
        (
            HandshakeView::Connecting { request: envelope(login_request(username, password)) },
            ActionView::Connect { port: PORT, timeout_ms: CONNECT_TIMEOUT_MS },
        )
    } else {
        finished(LoginResult::NoServer)
    }
}

/// How a login goes on from `state` when `event` is reported. An event
/// that does not answer the action asked for counts as that action's
/// failure.
pub open spec fn handshake_step(state: HandshakeView, event: Event) -> (HandshakeView, ActionView) {
    match state {
        HandshakeView::Connecting { request } => match event {
            Event::Connected => (HandshakeView::Sending, ActionView::Send(request)),
            _ => finished(LoginResult::ConnectionTimeout),
        },
        HandshakeView::Sending => match event {
            Event::Sent => (
                HandshakeView::Receiving { received: Seq::empty() },
                ActionView::Receive { timeout_ms: READ_TIMEOUT_MS },
            ),
            _ => finished(LoginResult::NetworkError),
        },
        HandshakeView::Receiving { received } => match event {
            Event::Read(read) => match read_step(received, read) {
                ReadProgressView::Pending(more) => (
                    HandshakeView::Receiving { received: more },
                    ActionView::Receive { timeout_ms: READ_TIMEOUT_MS },
                ),
                ReadProgressView::Complete(payload) => finished(
                    outcome_of_reply(parse_message(payload)),
                ),
                ReadProgressView::Failed(_) => finished(LoginResult::NetworkError),
            },
            _ => finished(LoginResult::NetworkError),
        },
        HandshakeView::Finished { result } => finished(result),
    }
}

/// What a decoded reply means for the login.
pub fn login_result(reply: &Result<Message, DecodeError>) -> (result: LoginResult)
    ensures
        match *reply {
            Ok(message) => result == outcome_of_reply(Ok(message@)),
            Err(cause) => result == outcome_of_reply(Err(cause)),
        },
{
    match reply {
        Ok(Message::LoginReply(LoginStatus::Accepted)) => LoginResult::Success,
        Ok(Message::LoginReply(LoginStatus::BadUser)) => LoginResult::BadUser,
        Ok(Message::LoginReply(LoginStatus::BadPass)) => LoginResult::BadPass,
        Ok(_) => LoginResult::SomethingWentWrong,
        Err(_) => LoginResult::NetworkError,
    }
}

impl Handshake {
    /// Starts a login. Both credentials are emptied, whatever comes of the
    /// login: nothing of them is kept but their digests. Without a server
    /// the login has ended before it began, with
    /// [`LoginResult::NoServer`]. With one, the request lies ready, made
    /// from the digests of the credentials, and the first action is to
    /// connect.
    pub fn begin<A>(server: &Option<A>, username: &mut String, password: &mut String) -> (out: (
        Handshake,
        Action,
    ))
        ensures
            (out.0@, out.1@) == handshake_start(server is Some, old(username)@, old(password)@),
            final(username)@.len() == 0,
            final(password)@.len() == 0,
    {
        if server.is_none() {
            *username = String::new();
            *password = String::new();
            return (
                Handshake::Finished { result: LoginResult::NoServer },
                Action::Finish(LoginResult::NoServer),
            );
        }
        let request = Message::LoginRequest {
            username: get_hash(username),
            password: get_hash(password),
        };
        *username = String::new();
        *password = String::new();
        (
            Handshake::Connecting { request: send_message(&request) },
            Action::Connect { port: PORT, timeout_ms: CONNECT_TIMEOUT_MS },
        )
    }

    /// Takes in what came of the last action and says what to do next.
    pub fn step(self, event: Event) -> (out: (Handshake, Action))
        ensures
            (out.0@, out.1@) == handshake_step(self@, event),
    {
        match self {
            Handshake::Connecting { request } => match event {
                Event::Connected => (Handshake::Sending, Action::Send(request)),
                _ => Self::finish(LoginResult::ConnectionTimeout),
            },
            Handshake::Sending => match event {
                Event::Sent => (
                    Handshake::Receiving { reader: FrameReader::new() },
                    Action::Receive { timeout_ms: READ_TIMEOUT_MS },
                ),
                _ => Self::finish(LoginResult::NetworkError),
            },
            Handshake::Receiving { reader } => match event {
                Event::Read(read) => match reader.feed(read) {
                    ReadProgress::Pending(reader) => (
                        Handshake::Receiving { reader },
                        Action::Receive { timeout_ms: READ_TIMEOUT_MS },
                    ),
                    ReadProgress::Complete(payload) => {
                        let reply = decode(payload.as_slice());
                        Self::finish(login_result(&reply))
                    },
                    ReadProgress::Failed(_) => Self::finish(LoginResult::NetworkError),
                },
                _ => Self::finish(LoginResult::NetworkError),
            },
            Handshake::Finished { result } => Self::finish(result),
        }
    }

    /// The end of a login with `result`.
    fn finish(result: LoginResult) -> (out: (Handshake, Action))
        ensures
            (out.0@, out.1@) == finished(result),
    {
        (Handshake::Finished { result }, Action::Finish(result))
    }
}

/// A login is a single pass: once begun it never asks for a second
/// connection, and it asks to send only when the connection has just been
/// made.
pub proof fn lemma_single_pass(state: HandshakeView, event: Event)
    ensures
        !(handshake_step(state, event).1 is Connect),
        handshake_step(state, event).1 is Send ==> state is Connecting && event == Event::Connected,
        !(handshake_step(state, event).0 is Connecting),
{
}

/// Where a login stands after `events` have been reported one after the
/// other, from `state` on.
pub open spec fn handshake_run(state: HandshakeView, events: Seq<Event>) -> HandshakeView
    decreases events.len(),
{
    if events.len() == 0 {
        state
    } else {
        handshake_run(handshake_step(state, events[0]).0, events.drop_first())
    }
}

/// The events of reading `bytes` from the connection, one read for each.
pub open spec fn read_events(bytes: Seq<u8>) -> Seq<Event> {
    Seq::new(bytes.len(), |at: int| Event::Read(ReadEvent::Byte(bytes[at])))
}

/// A login that has ended stays ended, with the result it has.
pub proof fn lemma_finished_stays(result: LoginResult, events: Seq<Event>)
    ensures
        handshake_run(HandshakeView::Finished { result }, events) == (HandshakeView::Finished {
            result,
        }),
    decreases events.len(),
{
    if events.len() > 0 {
        lemma_finished_stays(result, events.drop_first());
    }
}

/// Reading a stream byte by byte ends the login at the first sentinel, with
/// the outcome of the bytes before it; what follows the sentinel changes
/// nothing. As long as no sentinel has come the login goes on reading and
/// holds all that came.
pub proof fn lemma_receiving_run(received: Seq<u8>, stream: Seq<u8>)
    ensures
        match framed_payload(stream) {
            Some(payload) => handshake_run(
                HandshakeView::Receiving { received },
                read_events(stream),
            ) == (HandshakeView::Finished {
                result: outcome_of_reply(parse_message(received + payload)),
            }),
            None => handshake_run(HandshakeView::Receiving { received }, read_events(stream))
                == (HandshakeView::Receiving { received: received + stream }),
        },
    decreases stream.len(),
{
    let events = read_events(stream);
    if stream.len() == 0 {
        assert(!stream.contains(SENTINEL));
        lemma_framed_payload_none(stream);
        assert(received + stream =~= received);
    } else {
        let rest = stream.drop_first();
        assert(events.drop_first() =~= read_events(rest));
        if stream[0] == SENTINEL {
            assert(is_first_sentinel(stream, 0));
            lemma_framed_payload_at(stream, 0);
            assert(stream.take(0) =~= Seq::<u8>::empty());
            assert(received + Seq::<u8>::empty() =~= received);
            lemma_finished_stays(outcome_of_reply(parse_message(received)), read_events(rest));
        } else {
            lemma_receiving_run(received.push(stream[0]), rest);
            if exists|at: int| is_first_sentinel(rest, at) {
                let at = choose|at: int| is_first_sentinel(rest, at);
                assert forall|before: int| 0 <= before < at + 1 implies stream[before]
                    != SENTINEL by {
                    if before > 0 {
                        assert(stream[before] == rest[before - 1]);
                    }
                }
                assert(is_first_sentinel(stream, at + 1));
                lemma_framed_payload_at(stream, at + 1);
                lemma_framed_payload_at(rest, at);
                assert(received.push(stream[0]) + rest.take(at) =~= received + stream.take(at + 1));
            } else {
                assert forall|at: int| !is_first_sentinel(stream, at) by {
                    if is_first_sentinel(stream, at) {
                        assert(forall|before: int|
                            0 <= before < at - 1 ==> rest[before] == stream[before + 1]);
                        assert(is_first_sentinel(rest, at - 1));
                    }
                }
                assert(received.push(stream[0]) + rest =~= received + stream);
            }
        }
    }
}

/// Reporting events in two parts is reporting them all.
pub proof fn lemma_run_in_parts(state: HandshakeView, first: Seq<Event>, second: Seq<Event>)
    ensures
        handshake_run(state, first + second) == handshake_run(handshake_run(state, first), second),
    decreases first.len(),
{
    if first.len() == 0 {
        assert(first + second =~= second);
    } else {
        assert((first + second).drop_first() =~= first.drop_first() + second);
        lemma_run_in_parts(handshake_step(state, first[0]).0, first.drop_first(), second);
    }
}

/// The events of a server that takes the connection and the request and
/// then sends `stream`.
pub open spec fn server_events(stream: Seq<u8>) -> Seq<Event> {
    seq![Event::Connected, Event::Sent] + read_events(stream)
}

/// Against a server that takes the connection and the request, the login
/// reads what the server sends as [`lemma_receiving_run`] says, from
/// nothing on.
pub proof fn lemma_login_run(request: Seq<u8>, stream: Seq<u8>)
    ensures
        handshake_run(HandshakeView::Connecting { request }, server_events(stream))
            == handshake_run(
            HandshakeView::Receiving { received: Seq::empty() },
            read_events(stream),
        ),
{
    let events = server_events(stream);
    assert(events[0] == Event::Connected);
    assert(events.drop_first()[0] == Event::Sent);
    assert(events.drop_first().drop_first() =~= read_events(stream));
    assert(handshake_run(HandshakeView::Connecting { request }, events) == handshake_run(
        HandshakeView::Sending,
        events.drop_first(),
    ));
}

/// A server that answers with a wire text of `reply`, the sentinel and
/// anything after it has the login end with what `reply` means: an
/// accepted login is a success, a refused one says what was wrong, and any
/// other message is out of place.
pub proof fn lemma_login_outcome(
    request: Seq<u8>,
    payload: Seq<u8>,
    reply: MessageView,
    rest: Seq<u8>,
)
    requires
        is_wire_text(payload, reply),
    ensures
        handshake_run(
            HandshakeView::Connecting { request },
            server_events(payload.push(SENTINEL) + rest),
        ) == (HandshakeView::Finished { result: outcome_of_reply(Ok(reply)) }),
{
    let stream = payload.push(SENTINEL) + rest;
    lemma_wire_text_holds_no_sentinel(payload, reply);
    lemma_parse_message_iff_wire_text(payload, reply);
    lemma_framed_payload_of_envelope(payload, rest);
    lemma_login_run(request, stream);
    lemma_receiving_run(Seq::empty(), stream);
    assert(Seq::<u8>::empty() + payload =~= payload);
}

/// A server whose stream fails before any sentinel has come has the login
/// end with a network error, whatever came before and whatever the cause:
/// a peer that closes at once, one that stays silent, one that stops in
/// the middle of its reply.
pub proof fn lemma_login_without_reply(request: Seq<u8>, stream: Seq<u8>, cause: TransportError)
    requires
        !stream.contains(SENTINEL),
    ensures
        handshake_run(
            HandshakeView::Connecting { request },
            server_events(stream).push(Event::Read(ReadEvent::Failed(cause))),
        ) == (HandshakeView::Finished { result: LoginResult::NetworkError }),
{
    let failure = seq![Event::Read(ReadEvent::Failed(cause))];
    let receiving = HandshakeView::Receiving { received: Seq::<u8>::empty() + stream };
    assert(server_events(stream).push(Event::Read(ReadEvent::Failed(cause))) =~= server_events(
        stream,
    ) + failure);
    lemma_run_in_parts(HandshakeView::Connecting { request }, server_events(stream), failure);
    lemma_login_run(request, stream);
    lemma_framed_payload_none(stream);
    lemma_receiving_run(Seq::empty(), stream);
    assert(handshake_run(receiving, failure) == handshake_run(
        handshake_step(receiving, failure[0]).0,
        failure.drop_first(),
    ));
}

} // verus!
