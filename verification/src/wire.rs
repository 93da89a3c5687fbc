//! The wire text of the messages, and what reading it means.
//!
//! Wire text is JSON with the variant's name as the tag:
//! `{"LoginRequest":{"username":"..","password":".."}}`,
//! `{"LoginReply":"Accepted"}` (or `"BadUser"`, `"BadPass"`) and
//! `"BadRequest"`. What counts is the tokens: white space may stand
//! before, between and after them, and the two members of a login request
//! may come in either order. The two strings of a login request are JSON
//! string literals, written in any way that JSON allows; every other token
//! is fixed, byte for byte.
//!
//! A message is sent with nothing between its tokens and with the
//! username first. Nothing else is wire text: not a name or a status
//! written with escapes, not a login request with a member beyond the two
//! or with one of them twice, and no other way of writing a variant.

use crate::framing::SENTINEL;
use crate::literal::{
    is_string_literal, json_string_literal, json_string_value, lemma_string_literal_bytes, QUOTE,
};
use crate::message::{LoginStatus, MessageView};
use crate::tokens::{
    is_token, joined, lemma_tokens_are_tokens, lemma_tokens_hold_the_text,
    lemma_tokens_of_joined, tokens,
};
use vstd::prelude::*;
use vstd::string::{is_ascii, is_ascii_spec_bytes, StringSliceAdditionalSpecFns};

verus! {

/// Why bytes are not the wire text of a message.
#[derive(Clone, Copy, Debug, PartialEq, Eq, Structural)]
pub enum DecodeError {
    /// The text opens like no message that the protocol knows.
    UnknownVariant,
    /// The text opens like a known message and does not go on like one: a
    /// member is missing, twice there or unknown, a status is unknown,
    /// something follows the end, or a string literal never closes.
    Malformed,
    /// A login request of the right shape in which the username or the
    /// password is no JSON string.
    InvalidString,
}

/// The token that opens an object.
pub open spec fn brace_open() -> Seq<u8> {
    "{".spec_bytes()
}

/// The token that closes an object.
pub open spec fn brace_close() -> Seq<u8> {
    "}".spec_bytes()
}

/// The token between a name and its value.
pub open spec fn colon() -> Seq<u8> {
    ":".spec_bytes()
}

/// The token between two members.
pub open spec fn comma() -> Seq<u8> {
    ",".spec_bytes()
}

/// The token that is all of a bad request.
pub open spec fn bad_request_name() -> Seq<u8> {
    "\"BadRequest\"".spec_bytes()
}

/// The token that tags a login reply.
pub open spec fn reply_name() -> Seq<u8> {
    "\"LoginReply\"".spec_bytes()
}

/// The token that tags a login request.
pub open spec fn request_name() -> Seq<u8> {
    "\"LoginRequest\"".spec_bytes()
}

/// The token that names the username.
pub open spec fn username_name() -> Seq<u8> {
    "\"username\"".spec_bytes()
}

/// The token that names the password.
pub open spec fn password_name() -> Seq<u8> {
    "\"password\"".spec_bytes()
}

/// The token of a status.
pub open spec fn status_name(status: LoginStatus) -> Seq<u8> {
    match status {
        LoginStatus::Accepted => "\"Accepted\"".spec_bytes(),
        LoginStatus::BadUser => "\"BadUser\"".spec_bytes(),
        LoginStatus::BadPass => "\"BadPass\"".spec_bytes(),
    }
}

/// The tokens of a login reply.
pub open spec fn reply_tokens(status: LoginStatus) -> Seq<Seq<u8>> {
    seq![brace_open(), reply_name(), colon(), status_name(status), brace_close()]
}

/// The tokens of a login request whose username and password are written
/// as the two given string literals, with the username as the first member
/// or as the second.
pub open spec fn request_tokens(
    username_literal: Seq<u8>,
    password_literal: Seq<u8>,
    username_first: bool,
) -> Seq<Seq<u8>> {
    if username_first {
        seq![
            brace_open(),
            request_name(),
            colon(),
            brace_open(),
            username_name(),
            colon(),
            username_literal,
            comma(),
            password_name(),
            colon(),
            password_literal,
            brace_close(),
            brace_close(),
        ]
    } else {
        seq![
            brace_open(),
            request_name(),
            colon(),
            brace_open(),
            password_name(),
            colon(),
            password_literal,
            comma(),
            username_name(),
            colon(),
            username_literal,
            brace_close(),
            brace_close(),
        ]
    }
}

/// The wire text of a login reply as it is sent: its tokens and nothing
/// between them.
pub open spec fn login_reply_text(status: LoginStatus) -> Seq<u8> {
    joined(reply_tokens(status))
}

/// The wire text of a login request as it is sent: its tokens, the
/// username first, and nothing between them.
pub open spec fn login_request_text(username_literal: Seq<u8>, password_literal: Seq<u8>) -> Seq<u8> {
    joined(request_tokens(username_literal, password_literal, true))
}

/// The wire text of a bad request as it is sent.
pub open spec fn bad_request_text() -> Seq<u8> {
    bad_request_name()
}

/// The wire text of a message as it is sent, without the sentinel.
pub open spec fn message_text(message: MessageView) -> Seq<u8> {
    match message {
        MessageView::LoginRequest { username, password } => login_request_text(
            json_string_literal(username),
            json_string_literal(password),
        ),
        MessageView::LoginReply(status) => login_reply_text(status),
        MessageView::BadRequest => bad_request_text(),
    }
}

/// The envelope of a message: its wire text and then one sentinel.
pub open spec fn envelope(message: MessageView) -> Seq<u8> {
    message_text(message).push(SENTINEL)
}

/// Whether `payload` is wire text of `message`: its tokens are those of
/// the message. For a login request they are so for every way of writing
/// its two strings as JSON string literals, and in either order of the two
/// members.
pub open spec fn is_wire_text(payload: Seq<u8>, message: MessageView) -> bool {
    match message {
        MessageView::LoginRequest { username, password } => exists|
            username_literal: Seq<u8>,
            password_literal: Seq<u8>,
            username_first: bool,
        |
            #![trigger request_tokens(username_literal, password_literal, username_first)]
            {
                &&& is_string_literal(username_literal)
                &&& is_string_literal(password_literal)
                &&& json_string_value(username_literal) == Some(username)
                &&& json_string_value(password_literal) == Some(password)
                &&& tokens(payload) == Some(
                    request_tokens(username_literal, password_literal, username_first),
                )
            },
        MessageView::LoginReply(status) => tokens(payload) == Some(reply_tokens(status)),
        MessageView::BadRequest => tokens(payload) == Some(seq![bad_request_name()]),
    }
}

/// Whether tokens open an object whose first member has the name `name`.
pub open spec fn opens_with(found: Seq<Seq<u8>>, name: Seq<u8>) -> bool {
    found.len() >= 2 && found[0] == brace_open() && found[1] == name
}

/// The status that a token stands for.
pub open spec fn status_of(token: Seq<u8>) -> Option<LoginStatus> {
    if token == status_name(LoginStatus::Accepted) {
        Some(LoginStatus::Accepted)
    } else if token == status_name(LoginStatus::BadUser) {
        Some(LoginStatus::BadUser)
    } else if token == status_name(LoginStatus::BadPass) {
        Some(LoginStatus::BadPass)
    } else {
        None
    }
}

/// The status in tokens that open as a login reply: they must go on with
/// a colon, a status and the closing brace, and end there.
pub open spec fn reply_status(found: Seq<Seq<u8>>) -> Option<LoginStatus> {
    if found.len() == 5 && found[2] == colon() && found[4] == brace_close() {
        status_of(found[3])
    } else {
        None
    }
}

/// Whether a token opens as a string literal does.
pub open spec fn opens_literal(token: Seq<u8>) -> bool {
    token.len() >= 1 && token[0] == QUOTE
}

/// The two string literals in tokens that open as a login request, the
/// username's first: they must go on with a colon and an object of two
/// members, the username and the password in either order, each a name, a
/// colon and a string literal, and end with that object and their own.
pub open spec fn login_request_literals(found: Seq<Seq<u8>>) -> Option<(Seq<u8>, Seq<u8>)> {
    if found.len() == 13 && found[2] == colon() && found[3] == brace_open() && found[5] == colon()
        && opens_literal(found[6]) && found[7] == comma() && found[9] == colon() && opens_literal(
        found[10],
    ) && found[11] == brace_close() && found[12] == brace_close() {
        if found[4] == username_name() && found[8] == password_name() {
            Some((found[6], found[10]))
        } else if found[4] == password_name() && found[8] == username_name() {
            Some((found[10], found[6]))
        } else {
            None
        }
    } else {
        None
    }
}

/// The login request that two literals stand for, once each has been read
/// as a JSON string.
pub open spec fn login_request_of(
    username: Option<Seq<char>>,
    password: Option<Seq<char>>,
) -> Result<MessageView, DecodeError> {
    match (username, password) {
        (Some(username), Some(password)) => Ok(MessageView::LoginRequest { username, password }),
        _ => Err(DecodeError::InvalidString),
    }
}

/// The message that tokens stand for, or why they stand for none.
pub open spec fn parse_tokens(found: Seq<Seq<u8>>) -> Result<MessageView, DecodeError> {
    if found.len() == 1 && found[0] == bad_request_name() {
        Ok(MessageView::BadRequest)
    } else if opens_with(found, reply_name()) {
        match reply_status(found) {
            Some(status) => Ok(MessageView::LoginReply(status)),
            None => Err(DecodeError::Malformed),
        }
    } else if opens_with(found, request_name()) {
        match login_request_literals(found) {
            Some((username_literal, password_literal)) => login_request_of(
                json_string_value(username_literal),
                json_string_value(password_literal),
            ),
            None => Err(DecodeError::Malformed),
        }
    } else {
        Err(DecodeError::UnknownVariant)
    }
}

/// The message that `payload` is wire text of, or why it is none.
pub open spec fn parse_message(payload: Seq<u8>) -> Result<MessageView, DecodeError> {
    match tokens(payload) {
        Some(found) => parse_tokens(found),
        None => Err(DecodeError::Malformed),
    }
}

/// What the fixed tokens hold: each is one token without a sentinel, and
/// those that may stand in the same place differ.
proof fn lemma_fixed_tokens()
    ensures
        is_token(brace_open()),
        is_token(brace_close()),
        is_token(colon()),
        is_token(comma()),
        is_token(bad_request_name()),
        is_token(reply_name()),
        is_token(request_name()),
        is_token(username_name()),
        is_token(password_name()),
        forall|status: LoginStatus| is_token(#[trigger] status_name(status)),
        !brace_open().contains(SENTINEL),
        !brace_close().contains(SENTINEL),
        !colon().contains(SENTINEL),
        !comma().contains(SENTINEL),
        !bad_request_name().contains(SENTINEL),
        !reply_name().contains(SENTINEL),
        !request_name().contains(SENTINEL),
        !username_name().contains(SENTINEL),
        !password_name().contains(SENTINEL),
        forall|status: LoginStatus| !(#[trigger] status_name(status)).contains(SENTINEL),
        reply_name() != request_name(),
        username_name() != password_name(),
        status_name(LoginStatus::Accepted) != status_name(LoginStatus::BadUser),
        status_name(LoginStatus::Accepted) != status_name(LoginStatus::BadPass),
        status_name(LoginStatus::BadUser) != status_name(LoginStatus::BadPass),
        opens_literal(bad_request_name()),
        !opens_literal(brace_open()),
{
    reveal_with_fuel(crate::literal::closing_quote, 16);
    reveal_strlit("{");
    reveal_strlit("}");
    reveal_strlit(":");
    reveal_strlit(",");
    reveal_strlit("\"BadRequest\"");
    reveal_strlit("\"LoginReply\"");
    reveal_strlit("\"LoginRequest\"");
    reveal_strlit("\"username\"");
    reveal_strlit("\"password\"");
    reveal_strlit("\"Accepted\"");
    reveal_strlit("\"BadUser\"");
    reveal_strlit("\"BadPass\"");
    assert(is_ascii("{"));
    assert(is_ascii("}"));
    assert(is_ascii(":"));
    assert(is_ascii(","));
    assert(is_ascii("\"BadRequest\""));
    assert(is_ascii("\"LoginReply\""));
    assert(is_ascii("\"LoginRequest\""));
    assert(is_ascii("\"username\""));
    assert(is_ascii("\"password\""));
    assert(is_ascii("\"Accepted\""));
    assert(is_ascii("\"BadUser\""));
    assert(is_ascii("\"BadPass\""));
    is_ascii_spec_bytes("{");
    is_ascii_spec_bytes("}");
    is_ascii_spec_bytes(":");
    is_ascii_spec_bytes(",");
    is_ascii_spec_bytes("\"BadRequest\"");
    is_ascii_spec_bytes("\"LoginReply\"");
    is_ascii_spec_bytes("\"LoginRequest\"");
    is_ascii_spec_bytes("\"username\"");
    is_ascii_spec_bytes("\"password\"");
    is_ascii_spec_bytes("\"Accepted\"");
    is_ascii_spec_bytes("\"BadUser\"");
    is_ascii_spec_bytes("\"BadPass\"");
    assert(reply_name().len() != request_name().len());
    assert(username_name()[1] != password_name()[1]);
    assert(status_name(LoginStatus::Accepted)[1] != status_name(LoginStatus::BadUser)[1]);
    assert(status_name(LoginStatus::Accepted)[1] != status_name(LoginStatus::BadPass)[1]);
    assert(status_name(LoginStatus::BadUser)[4] != status_name(LoginStatus::BadPass)[4]);
    assert(is_token(bad_request_name()));
    assert(is_token(reply_name()));
    assert(is_token(request_name()));
    assert(is_token(username_name()));
    assert(is_token(password_name()));
    assert(is_token(status_name(LoginStatus::Accepted)));
    assert(is_token(status_name(LoginStatus::BadUser)));
    assert(is_token(status_name(LoginStatus::BadPass)));
    assert forall|status: LoginStatus| is_token(#[trigger] status_name(status)) by {
        match status {
            LoginStatus::Accepted => {},
            LoginStatus::BadUser => {},
            LoginStatus::BadPass => {},
        }
    }
    assert forall|status: LoginStatus| !(#[trigger] status_name(status)).contains(SENTINEL) by {
        match status {
            LoginStatus::Accepted => {},
            LoginStatus::BadUser => {},
            LoginStatus::BadPass => {},
        }
    }
}

/// The tokens of a message are tokens: written with white space around
/// them, or with none, they are read back as they are.
pub proof fn lemma_message_tokens_are_tokens(
    status: LoginStatus,
    username_literal: Seq<u8>,
    password_literal: Seq<u8>,
    username_first: bool,
)
    ensures
        is_token(bad_request_name()),
        forall|i: int| 0 <= i < 5 ==> is_token(#[trigger] reply_tokens(status)[i]),
        is_string_literal(username_literal) && is_string_literal(password_literal) ==> forall|
            i: int,
        |
            0 <= i < 13 ==> is_token(
                #[trigger] request_tokens(username_literal, password_literal, username_first)[i],
            ),
{
    lemma_fixed_tokens();
    if is_string_literal(username_literal) && is_string_literal(password_literal) {
        lemma_string_literal_bytes(username_literal);
        lemma_string_literal_bytes(password_literal);
        assert(is_token(username_literal));
        assert(is_token(password_literal));
    }
}

/// A login reply as it is sent has the tokens of that reply.
proof fn lemma_reply_text_tokens(status: LoginStatus)
    ensures
        tokens(login_reply_text(status)) == Some(reply_tokens(status)),
{
    lemma_fixed_tokens();
    lemma_tokens_of_joined(reply_tokens(status));
}

/// A login request as it is sent has the tokens of that request, the
/// username first.
proof fn lemma_request_text_tokens(username_literal: Seq<u8>, password_literal: Seq<u8>)
    requires
        is_string_literal(username_literal),
        is_string_literal(password_literal),
    ensures
        tokens(login_request_text(username_literal, password_literal)) == Some(
            request_tokens(username_literal, password_literal, true),
        ),
{
    lemma_fixed_tokens();
    lemma_string_literal_bytes(username_literal);
    lemma_string_literal_bytes(password_literal);
    assert(is_token(username_literal));
    assert(is_token(password_literal));
    lemma_tokens_of_joined(request_tokens(username_literal, password_literal, true));
}

/// A bad request as it is sent has the one token of a bad request.
proof fn lemma_bad_request_text_tokens()
    ensures
        tokens(bad_request_text()) == Some(seq![bad_request_name()]),
{
    lemma_fixed_tokens();
    let parts = seq![bad_request_name()];
    lemma_tokens_of_joined(parts);
    assert(parts.skip(1) =~= Seq::<Seq<u8>>::empty());
    assert(joined(parts) =~= bad_request_name()) by {
        reveal_with_fuel(joined, 2);
    }
}

/// Whether the strings of `message` are sent as string literals from which
/// they are read back. A message without strings has nothing to ask for.
pub open spec fn strings_read_back(message: MessageView) -> bool {
    match message {
        MessageView::LoginRequest { username, password } => {
            &&& is_string_literal(json_string_literal(username))
            &&& is_string_literal(json_string_literal(password))
            &&& json_string_value(json_string_literal(username)) == Some(username)
            &&& json_string_value(json_string_literal(password)) == Some(password)
        },
        _ => true,
    }
}

/// What is sent for a message is wire text of it, as soon as its strings
/// are sent as string literals that read back. A message without strings
/// needs no such thing.
pub proof fn lemma_message_text_is_wire_text(message: MessageView)
    ensures
        strings_read_back(message) ==> is_wire_text(message_text(message), message),
{
    match message {
        MessageView::LoginRequest { username, password } => {
            if is_string_literal(json_string_literal(username)) && is_string_literal(
                json_string_literal(password),
            ) {
                lemma_request_text_tokens(
                    json_string_literal(username),
                    json_string_literal(password),
                );
                assert(tokens(message_text(message)) == Some(
                    request_tokens(
                        json_string_literal(username),
                        json_string_literal(password),
                        true,
                    ),
                ));
            }
        },
        MessageView::LoginReply(status) => {
            lemma_reply_text_tokens(status);
        },
        MessageView::BadRequest => {
            lemma_bad_request_text_tokens();
        },
    }
}

/// Reading gives a message for its wire texts and for nothing else.
pub proof fn lemma_parse_message_iff_wire_text(payload: Seq<u8>, message: MessageView)
    ensures
        parse_message(payload) == Ok::<MessageView, DecodeError>(message) <==> is_wire_text(
            payload,
            message,
        ),
{
    lemma_fixed_tokens();
    if is_wire_text(payload, message) {
        match message {
            MessageView::LoginRequest { username, password } => {
                let (username_literal, password_literal, username_first) = choose|
                    username_literal: Seq<u8>,
                    password_literal: Seq<u8>,
                    username_first: bool,
                |
                    #![trigger request_tokens(username_literal, password_literal, username_first)]
                    {
                        &&& is_string_literal(username_literal)
                        &&& is_string_literal(password_literal)
                        &&& json_string_value(username_literal) == Some(username)
                        &&& json_string_value(password_literal) == Some(password)
                        &&& tokens(payload) == Some(
                            request_tokens(username_literal, password_literal, username_first),
                        )
                    };
                let found = request_tokens(username_literal, password_literal, username_first);
                assert(login_request_literals(found) == Some((username_literal, password_literal)));
            },
            MessageView::LoginReply(status) => {
                let found = reply_tokens(status);
                assert(status_of(found[3]) == Some(status));
            },
            MessageView::BadRequest => {
                let found = seq![bad_request_name()];
                assert(found[0] == bad_request_name());
            },
        }
    }
    if parse_message(payload) == Ok::<MessageView, DecodeError>(message) {
        let found = tokens(payload).unwrap();
        if found.len() == 1 && found[0] == bad_request_name() {
            assert(found =~= seq![bad_request_name()]);
        } else if opens_with(found, reply_name()) {
            let status = reply_status(found).unwrap();
            assert(found =~= reply_tokens(status));
        } else {
            let (username_literal, password_literal) = login_request_literals(found).unwrap();
            lemma_tokens_are_tokens(payload, 6);
            lemma_tokens_are_tokens(payload, 10);
            let username_first = found[4] == username_name();
            assert(found =~= request_tokens(username_literal, password_literal, username_first));
        }
    }
}

/// No wire text of any message holds the sentinel: an envelope is one
/// frame.
pub proof fn lemma_wire_text_holds_no_sentinel(payload: Seq<u8>, message: MessageView)
    requires
        is_wire_text(payload, message),
    ensures
        !payload.contains(SENTINEL),
{
    lemma_fixed_tokens();
    match message {
        MessageView::LoginRequest { username, password } => {
            let (username_literal, password_literal, username_first) = choose|
                username_literal: Seq<u8>,
                password_literal: Seq<u8>,
                username_first: bool,
            |
                #![trigger request_tokens(username_literal, password_literal, username_first)]
                {
                    &&& is_string_literal(username_literal)
                    &&& is_string_literal(password_literal)
                    &&& json_string_value(username_literal) == Some(username)
                    &&& json_string_value(password_literal) == Some(password)
                    &&& tokens(payload) == Some(
                        request_tokens(username_literal, password_literal, username_first),
                    )
                };
            lemma_string_literal_bytes(username_literal);
            lemma_string_literal_bytes(password_literal);
            if username_literal.contains(SENTINEL) {
                let at = choose|at: int|
                    0 <= at < username_literal.len() && username_literal[at] == SENTINEL;
                assert(username_literal[at] >= crate::literal::SPACE);
            }
            if password_literal.contains(SENTINEL) {
                let at = choose|at: int|
                    0 <= at < password_literal.len() && password_literal[at] == SENTINEL;
                assert(password_literal[at] >= crate::literal::SPACE);
            }
        },
        MessageView::LoginReply(status) => {},
        MessageView::BadRequest => {},
    }
    lemma_tokens_hold_the_text(payload);
}

/// A wire text belongs to one message only.
pub proof fn lemma_wire_text_of_one_message(payload: Seq<u8>, first: MessageView, second: MessageView)
    requires
        is_wire_text(payload, first),
        is_wire_text(payload, second),
    ensures
        first == second,
{
    lemma_parse_message_iff_wire_text(payload, first);
    lemma_parse_message_iff_wire_text(payload, second);
}

/// The wire text of each login reply as it is sent, in one piece.
pub proof fn lemma_login_reply_texts()
    ensures
        login_reply_text(LoginStatus::Accepted) == "{\"LoginReply\":\"Accepted\"}".spec_bytes(),
        login_reply_text(LoginStatus::BadUser) == "{\"LoginReply\":\"BadUser\"}".spec_bytes(),
        login_reply_text(LoginStatus::BadPass) == "{\"LoginReply\":\"BadPass\"}".spec_bytes(),
{
    reveal_with_fuel(joined, 6);
    reveal_strlit("{");
    reveal_strlit("}");
    reveal_strlit(":");
    reveal_strlit("\"LoginReply\"");
    reveal_strlit("\"Accepted\"");
    reveal_strlit("\"BadUser\"");
    reveal_strlit("\"BadPass\"");
    reveal_strlit("{\"LoginReply\":\"Accepted\"}");
    reveal_strlit("{\"LoginReply\":\"BadUser\"}");
    reveal_strlit("{\"LoginReply\":\"BadPass\"}");
    assert(is_ascii("{"));
    assert(is_ascii("}"));
    assert(is_ascii(":"));
    assert(is_ascii("\"LoginReply\""));
    assert(is_ascii("\"Accepted\""));
    assert(is_ascii("\"BadUser\""));
    assert(is_ascii("\"BadPass\""));
    assert(is_ascii("{\"LoginReply\":\"Accepted\"}"));
    assert(is_ascii("{\"LoginReply\":\"BadUser\"}"));
    assert(is_ascii("{\"LoginReply\":\"BadPass\"}"));
    is_ascii_spec_bytes("{");
    is_ascii_spec_bytes("}");
    is_ascii_spec_bytes(":");
    is_ascii_spec_bytes("\"LoginReply\"");
    is_ascii_spec_bytes("\"Accepted\"");
    is_ascii_spec_bytes("\"BadUser\"");
    is_ascii_spec_bytes("\"BadPass\"");
    is_ascii_spec_bytes("{\"LoginReply\":\"Accepted\"}");
    is_ascii_spec_bytes("{\"LoginReply\":\"BadUser\"}");
    is_ascii_spec_bytes("{\"LoginReply\":\"BadPass\"}");
    lemma_joined_five(reply_tokens(LoginStatus::Accepted));
    lemma_joined_five(reply_tokens(LoginStatus::BadUser));
    lemma_joined_five(reply_tokens(LoginStatus::BadPass));
    assert(login_reply_text(LoginStatus::Accepted) =~= "{\"LoginReply\":\"Accepted\"}".spec_bytes());
    assert(login_reply_text(LoginStatus::BadUser) =~= "{\"LoginReply\":\"BadUser\"}".spec_bytes());
    assert(login_reply_text(LoginStatus::BadPass) =~= "{\"LoginReply\":\"BadPass\"}".spec_bytes());
}

/// Five tokens written one after the other.
proof fn lemma_joined_five(parts: Seq<Seq<u8>>)
    requires
        parts.len() == 5,
    ensures
        joined(parts) == parts[0] + parts[1] + parts[2] + parts[3] + parts[4],
{
    let s1 = parts.skip(1);
    let s2 = s1.skip(1);
    let s3 = s2.skip(1);
    let s4 = s3.skip(1);
    let s5 = s4.skip(1);
    assert(joined(s5) =~= Seq::<u8>::empty());
    assert(joined(s4) =~= parts[4]);
    assert(joined(s3) =~= parts[3] + parts[4]);
    assert(joined(s2) =~= parts[2] + parts[3] + parts[4]);
    assert(joined(s1) =~= parts[1] + parts[2] + parts[3] + parts[4]);
    assert(joined(parts) =~= parts[0] + parts[1] + parts[2] + parts[3] + parts[4]);
}

} // verus!
