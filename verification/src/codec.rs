//! The envelope codec: a message to the bytes that carry it, and back.

use crate::bytes::same_bytes;
use crate::framing::{
    framed_payload, get_stream_string, lemma_framed_payload_of_envelope, TransportError, SENTINEL,
};
use crate::literal::{json_string_value, read_string_literal, write_string_literal, QUOTE};
use crate::message::{LoginStatus, Message, MessageView};
use crate::tokens::{join_tokens, split_tokens, token_views};
use crate::wire::{
    envelope, is_wire_text, lemma_message_text_is_wire_text, lemma_parse_message_iff_wire_text,
    lemma_wire_text_holds_no_sentinel, login_reply_text, login_request_literals,
    login_request_of, login_request_text, message_text, opens_literal, opens_with,
    parse_message, parse_tokens, reply_status, reply_tokens, request_tokens, status_name,
    status_of, DecodeError,
};
use vstd::prelude::*;
use vstd::slice::slice_to_vec;

verus! {

/// Why no message came out of a stream.
#[derive(Clone, Copy, Debug, PartialEq, Eq, Structural)]
pub enum ReceiveError {
    /// No frame could be read.
    Transport(TransportError),
    /// A frame was read, and it holds no message.
    Decode(DecodeError),
}

/// What a stream delivers: the message in its first frame.
pub open spec fn received_message(stream: Seq<u8>) -> Result<MessageView, ReceiveError> {
    match framed_payload(stream) {
        None => Err(ReceiveError::Transport(TransportError::EndOfStream)),
        Some(payload) => match parse_message(payload) {
            Ok(message) => Ok(message),
            Err(cause) => Err(ReceiveError::Decode(cause)),
        },
    }
}

/// The token of a status.
fn status_bytes(status: LoginStatus) -> (out: &'static [u8])
    ensures
        out@ == status_name(status),
{
    match status {
        LoginStatus::Accepted => "\"Accepted\"".as_bytes(),
        LoginStatus::BadUser => "\"BadUser\"".as_bytes(),
        LoginStatus::BadPass => "\"BadPass\"".as_bytes(),
    }
}

/// Writes the wire text of a login reply.
pub fn login_reply_bytes(status: LoginStatus) -> (out: Vec<u8>)
    ensures
        out@ == login_reply_text(status),
{
    let mut parts: Vec<&[u8]> = Vec::new();
    parts.push("{".as_bytes());
    parts.push("\"LoginReply\"".as_bytes());
    parts.push(":".as_bytes());
    parts.push(status_bytes(status));
    parts.push("}".as_bytes());
    assert(token_views(parts@) =~= reply_tokens(status));
    join_tokens(parts.as_slice())
}

/// Writes the wire text of a login request around the two string literals
/// that stand for its username and its password, the username first.
pub fn login_request_bytes(username_literal: &[u8], password_literal: &[u8]) -> (out: Vec<u8>)
    ensures
        out@ == login_request_text(username_literal@, password_literal@),
{
    let mut parts: Vec<&[u8]> = Vec::new();
    parts.push("{".as_bytes());
    parts.push("\"LoginRequest\"".as_bytes());
    parts.push(":".as_bytes());
    parts.push("{".as_bytes());
    parts.push("\"username\"".as_bytes());
    parts.push(":".as_bytes());
    parts.push(username_literal);
    parts.push(",".as_bytes());
    parts.push("\"password\"".as_bytes());
    parts.push(":".as_bytes());
    parts.push(password_literal);
    parts.push("}".as_bytes());
    parts.push("}".as_bytes());
    assert(token_views(parts@) =~= request_tokens(username_literal@, password_literal@, true));
    join_tokens(parts.as_slice())
}

/// Whether the token at `at` is `expected`.
fn token_is(found: &[&[u8]], at: usize, expected: &[u8]) -> (out: bool)
    requires
        at < found@.len(),
    ensures
        out == (token_views(found@)[at as int] == expected@),
{
    same_bytes(found[at], expected)
}

/// Whether the token at `at` opens as a string literal does.
fn token_opens_literal(found: &[&[u8]], at: usize) -> (out: bool)
    requires
        at < found@.len(),
    ensures
        out == opens_literal(token_views(found@)[at as int]),
{
    let token = found[at];
    token.len() >= 1 && token[0] == QUOTE
}

/// Whether the tokens open an object whose first member has the name
/// `name`.
fn tokens_open_with(found: &[&[u8]], name: &[u8]) -> (out: bool)
    ensures
        out == opens_with(token_views(found@), name@),
{
    found.len() >= 2 && token_is(found, 0, "{".as_bytes()) && token_is(found, 1, name)
}

/// Takes the tokens of a login request apart: the string literal of its
/// username and that of its password, each with its quotes, whichever of
/// the two members comes first. `None` where the tokens do not have the
/// shape of a login request from end to end.
pub fn split_login_request<'a>(found: &[&'a [u8]]) -> (out: Option<(&'a [u8], &'a [u8])>)
    ensures
        match out {
            Some((username_literal, password_literal)) => login_request_literals(
                token_views(found@),
            ) == Some((username_literal@, password_literal@)),
            None => login_request_literals(token_views(found@)) is None,
        },
{
    if found.len() != 13 {
        return None;
    }
    let colon = ":".as_bytes();
    let shaped = token_is(found, 2, colon) && token_is(found, 3, "{".as_bytes()) && token_is(
        found,
        5,
        colon,
    ) && token_opens_literal(found, 6) && token_is(found, 7, ",".as_bytes()) && token_is(
        found,
        9,
        colon,
    ) && token_opens_literal(found, 10) && token_is(found, 11, "}".as_bytes()) && token_is(
        found,
        12,
        "}".as_bytes(),
    );
    if !shaped {
        return None;
    }
    let username = "\"username\"".as_bytes();
    let password = "\"password\"".as_bytes();
    if token_is(found, 4, username) && token_is(found, 8, password) {
        Some((found[6], found[10]))
    } else if token_is(found, 4, password) && token_is(found, 8, username) {
        Some((found[10], found[6]))
    } else {
        None
    }
}

/// Reads the status that a token stands for.
fn decode_status(token: &[u8]) -> (out: Option<LoginStatus>)
    ensures
        out == status_of(token@),
{
    if same_bytes(token, status_bytes(LoginStatus::Accepted)) {
        Some(LoginStatus::Accepted)
    } else if same_bytes(token, status_bytes(LoginStatus::BadUser)) {
        Some(LoginStatus::BadUser)
    } else if same_bytes(token, status_bytes(LoginStatus::BadPass)) {
        Some(LoginStatus::BadPass)
    } else {
        None
    }
}

/// Reads the status from tokens that open as a login reply.
fn decode_reply(found: &[&[u8]]) -> (out: Option<LoginStatus>)
    ensures
        out == reply_status(token_views(found@)),
{
    if found.len() == 5 && token_is(found, 2, ":".as_bytes()) && token_is(
        found,
        4,
        "}".as_bytes(),
    ) {
        decode_status(found[3])
    } else {
        None
    }
}

/// Builds the login request from what reading its two string literals
/// gave: a message where both are strings, and
/// [`DecodeError::InvalidString`] where one is not.
pub fn login_request_from(username: Option<String>, password: Option<String>) -> (out: Result<
    Message,
    DecodeError,
>)
    ensures
        match out {
            Ok(message) => login_request_of(username.deep_view(), password.deep_view())
                == Ok::<MessageView, DecodeError>(message@),
            Err(cause) => login_request_of(username.deep_view(), password.deep_view())
                == Err::<MessageView, DecodeError>(cause),
        },
{
    match (username, password) {
        (Some(username), Some(password)) => Ok(Message::LoginRequest { username, password }),
        _ => Err(DecodeError::InvalidString),
    }
}

/// Reads a string literal as a JSON string.
fn decode_string(literal: &[u8]) -> (out: Option<String>)
    ensures
        out.deep_view() == json_string_value(literal@),
{
    match read_string_literal(literal) {
        Ok(text) => Some(text),
        Err(_) => None,
    }
}

/// Reads a message from the tokens of its wire text.
pub fn decode_tokens(found: &[&[u8]]) -> (out: Result<Message, DecodeError>)
    ensures
        match out {
            Ok(message) => parse_tokens(token_views(found@)) == Ok::<MessageView, DecodeError>(
                message@,
            ),
            Err(cause) => parse_tokens(token_views(found@)) == Err::<MessageView, DecodeError>(
                cause,
            ),
        },
{
    if found.len() == 1 && token_is(found, 0, "\"BadRequest\"".as_bytes()) {
        Ok(Message::BadRequest)
    } else if tokens_open_with(found, "\"LoginReply\"".as_bytes()) {
        match decode_reply(found) {
            Some(status) => Ok(Message::LoginReply(status)),
            None => Err(DecodeError::Malformed),
        }
    } else if tokens_open_with(found, "\"LoginRequest\"".as_bytes()) {
        match split_login_request(found) {
            Some((username_literal, password_literal)) => login_request_from(
                decode_string(username_literal),
                decode_string(password_literal),
            ),
            None => Err(DecodeError::Malformed),
        }
    } else {
        Err(DecodeError::UnknownVariant)
    }
}

/// Reads a message from its wire text, the sentinel already taken off.
/// The message comes out for each of its wire texts, with or without
/// white space around the tokens, and for no other bytes; for those the
/// error says how far they are from a message.
pub fn decode(payload: &[u8]) -> (out: Result<Message, DecodeError>)
    ensures
        match out {
            Ok(message) => {
                &&& parse_message(payload@) == Ok::<MessageView, DecodeError>(message@)
                &&& is_wire_text(payload@, message@)
            },
            Err(cause) => {
                &&& parse_message(payload@) == Err::<MessageView, DecodeError>(cause)
                &&& forall|message: MessageView| !is_wire_text(payload@, message)
            },
        },
{
    proof {
        assert forall|message: MessageView|
            parse_message(payload@) == Ok::<MessageView, DecodeError>(message) <==> is_wire_text(
                payload@,
                message,
            ) by {
            lemma_parse_message_iff_wire_text(payload@, message);
        }
    }
    match split_tokens(payload) {
        Some(found) => decode_tokens(found.as_slice()),
        None => Err(DecodeError::Malformed),
    }
}

/// The envelope that carries `message` on the wire: its wire text, with
/// nothing between the tokens, and then the sentinel. The text holds no
/// sentinel itself, so the envelope is one frame, and what a peer reads
/// from it is `message` again.
pub fn send_message(message: &Message) -> (out: Vec<u8>)
    ensures
        out@ == envelope(message@),
        is_wire_text(message_text(message@), message@),
        !message_text(message@).contains(SENTINEL),
        parse_message(message_text(message@)) == Ok::<MessageView, DecodeError>(message@),
        received_message(out@) == Ok::<MessageView, ReceiveError>(message@),
{
    let mut out = match message {
        Message::LoginRequest { username, password } => {
            let username_literal = write_string_literal(username.as_str());
            let password_literal = write_string_literal(password.as_str());
            login_request_bytes(username_literal.as_slice(), password_literal.as_slice())
        },
        Message::LoginReply(status) => login_reply_bytes(*status),
        Message::BadRequest => slice_to_vec("\"BadRequest\"".as_bytes()),
    };
    proof {
        lemma_message_text_is_wire_text(message@);
        lemma_parse_message_iff_wire_text(out@, message@);
        lemma_wire_text_holds_no_sentinel(out@, message@);
        lemma_framed_payload_of_envelope(out@, Seq::empty());
        assert(out@.push(SENTINEL) + Seq::<u8>::empty() =~= out@.push(SENTINEL));
    }
    out.push(SENTINEL);
    out
}

/// Reads the message that a stream delivers: the frame up to the first
/// sentinel, read as wire text.
pub fn get_message(stream: &[u8]) -> (out: Result<Message, ReceiveError>)
    ensures
        match out {
            Ok(message) => received_message(stream@) == Ok::<MessageView, ReceiveError>(message@),
            Err(cause) => received_message(stream@) == Err::<MessageView, ReceiveError>(cause),
        },
{
    match get_stream_string(stream) {
        Err(cause) => Err(ReceiveError::Transport(cause)),
        Ok(payload) => match decode(payload.as_slice()) {
            Ok(message) => Ok(message),
            Err(cause) => Err(ReceiveError::Decode(cause)),
        },
    }
}

} // verus!
