//! The client side of a login protocol with a single exchange: the client
//! sends the digests of a username and a password, and the server answers
//! with its verdict.
//!
//! - [`digest`]: the digest of a credential.
//! - [`message`]: the messages.
//! - [`wire`]: their wire text, and what reading it means.
//! - [`tokens`]: the tokens of a JSON text, and the white space around
//!   them.
//! - [`literal`]: JSON string literals, the only tokens of the wire text
//!   that vary.
//! - [`codec`]: from a message to the bytes that carry it, and back.
//! - [`framing`]: an envelope ends at the first sentinel byte.
//! - [`handshake`]: the decisions of a login, one event at a time.
//!
//! Nothing here touches a socket. The caller owns the connection, performs
//! the actions that the handshake asks for and reports what came of them.

mod bytes;
pub mod codec;
pub mod digest;
pub mod framing;
pub mod handshake;
pub mod literal;
pub mod message;
pub mod tokens;
pub mod wire;

pub use crate::codec::{decode, get_message, send_message, ReceiveError};
pub use crate::digest::get_hash;
pub use crate::framing::{get_stream_string, FrameReader, ReadEvent, ReadProgress, TransportError};
pub use crate::handshake::{Action, Event, Handshake, LoginResult, PORT};
pub use crate::message::{LoginStatus, Message};
pub use crate::wire::DecodeError;

use vstd::prelude::*;

verus! {

/// The longest username, in characters, that a client is to offer.
pub const MAX_USERNAME_LEN: usize = 20;

/// What to tell the user when standard input fails.
pub const ERR_MSG_STDIN: &'static str = "problem with stdin";

/// What to tell the user when standard output fails.
pub const ERR_MSG_STDOUT: &'static str = "problem with stout";

} // verus!
