//! The messages of the login exchange.

use vstd::prelude::*;

verus! {

/// The server's verdict on a login request.
#[derive(Clone, Copy, Debug, PartialEq, Eq, Structural)]
pub enum LoginStatus {
    /// The credentials are right.
    Accepted,
    /// No user of that name is known.
    BadUser,
    /// The user is known, and the password is wrong.
    BadPass,
}

/// One message of the protocol. Exactly one variant is active in a value.
#[derive(Debug)]
pub enum Message {
    /// The client's credentials, each as the text of its digest.
    LoginRequest { username: String, password: String },
    /// The server's answer to a login request.
    LoginReply(LoginStatus),
    /// The peer could not make sense of what it received.
    BadRequest,
}

/// What a [`Message`] holds, with its strings as sequences of characters.
pub enum MessageView {
    LoginRequest { username: Seq<char>, password: Seq<char> },
    LoginReply(LoginStatus),
    BadRequest,
}

impl View for Message {
    type V = MessageView;

    open spec fn view(&self) -> MessageView {
        match *self {
            Message::LoginRequest { username, password } => MessageView::LoginRequest {
                username: username@,
                password: password@,
            },
            Message::LoginReply(status) => MessageView::LoginReply(status),
            Message::BadRequest => MessageView::BadRequest,
        }
    }
}

impl Clone for Message {
    /// A copy with the same contents.
    fn clone(&self) -> (copy: Message)
        ensures
            copy@ == self@,
    {
        match self {
            Message::LoginRequest { username, password } => Message::LoginRequest {
                username: username.clone(),
                password: password.clone(),
            },
            Message::LoginReply(status) => Message::LoginReply(*status),
            Message::BadRequest => Message::BadRequest,
        }
    }
}

impl PartialEq for Message {
    /// Two messages are equal when they are the same variant with the same
    /// contents.
    fn eq(&self, other: &Message) -> (equal: bool) {
        match self {
            Message::LoginRequest { username, password } => match other {
                Message::LoginRequest { username: other_username, password: other_password } => {
                    let same_username = username.eq(other_username);
                    let same_password = password.eq(other_password);
                    same_username && same_password
                },
                _ => false,
            },
            Message::LoginReply(status) => match other {
                Message::LoginReply(other_status) => *status == *other_status,
                _ => false,
            },
            Message::BadRequest => match other {
                Message::BadRequest => true,
                _ => false,
            },
        }
    }
}

impl vstd::std_specs::cmp::PartialEqSpecImpl for Message {
    open spec fn obeys_eq_spec() -> bool {
        true
    }

    open spec fn eq_spec(&self, other: &Message) -> bool {
        self@ == other@
    }
}

} // verus!
