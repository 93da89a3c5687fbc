use login_protocol::codec::{
    decode_tokens, login_reply_bytes, login_request_bytes, login_request_from,
    split_login_request,
};
use login_protocol::tokens::split_tokens;
use login_protocol::{
    decode, get_message, get_stream_string, send_message, DecodeError, LoginStatus, Message,
    ReceiveError, TransportError,
};

fn request(username: &str, password: &str) -> Message {
    Message::LoginRequest { username: username.to_string(), password: password.to_string() }
}

fn payload_of(message: &Message) -> Vec<u8> {
    let mut envelope = send_message(message);
    assert_eq!(envelope.pop(), Some(0));
    envelope
}

#[test]
fn envelope_of_a_login_request() {
    assert_eq!(
        send_message(&request("user", "pass")),
        b"{\"LoginRequest\":{\"username\":\"user\",\"password\":\"pass\"}}\0".to_vec()
    );
}

#[test]
fn envelope_of_a_login_request_with_empty_strings() {
    assert_eq!(
        send_message(&request("", "")),
        b"{\"LoginRequest\":{\"username\":\"\",\"password\":\"\"}}\0".to_vec()
    );
}

#[test]
fn envelope_of_each_login_reply() {
    assert_eq!(
        send_message(&Message::LoginReply(LoginStatus::Accepted)),
        b"{\"LoginReply\":\"Accepted\"}\0".to_vec()
    );
    assert_eq!(
        send_message(&Message::LoginReply(LoginStatus::BadUser)),
        b"{\"LoginReply\":\"BadUser\"}\0".to_vec()
    );
    assert_eq!(
        send_message(&Message::LoginReply(LoginStatus::BadPass)),
        b"{\"LoginReply\":\"BadPass\"}\0".to_vec()
    );
}

#[test]
fn envelope_of_a_bad_request() {
    assert_eq!(send_message(&Message::BadRequest), b"\"BadRequest\"\0".to_vec());
}

#[test]
fn envelope_escapes_quotes_backslashes_and_control_characters() {
    assert_eq!(
        send_message(&request("a\"b\\c", "line\nbreak\ttab\u{1}")),
        b"{\"LoginRequest\":{\"username\":\"a\\\"b\\\\c\",\"password\":\"line\\nbreak\\ttab\\u0001\"}}\0"
            .to_vec()
    );
}

#[test]
fn envelope_writes_other_characters_as_utf8() {
    let mut expected = b"{\"LoginRequest\":{\"username\":\"".to_vec();
    expected.extend_from_slice("\u{e9}\u{4e16}".as_bytes());
    expected.extend_from_slice(b"\",\"password\":\"/\x7f\"}}\0");
    assert_eq!(send_message(&request("\u{e9}\u{4e16}", "/\u{7f}")), expected);
}

#[test]
fn envelope_ends_with_its_only_sentinel() {
    let messages = [
        request("user", "pass"),
        request("\u{0}", "\u{0}\u{0}"),
        request("a\u{0}b", ""),
        Message::LoginReply(LoginStatus::Accepted),
        Message::LoginReply(LoginStatus::BadUser),
        Message::LoginReply(LoginStatus::BadPass),
        Message::BadRequest,
    ];
    for message in messages.iter() {
        let envelope = send_message(message);
        assert_eq!(envelope.last(), Some(&0));
        assert_eq!(envelope.iter().filter(|byte| **byte == 0).count(), 1);
    }
}

#[test]
fn wire_text_is_json_that_serde_json_reads() {
    let payload = payload_of(&request("us\"er", "pa\\ss\u{7}"));
    let value: serde_json::Value = serde_json::from_slice(&payload).unwrap();
    assert_eq!(value["LoginRequest"]["username"].as_str(), Some("us\"er"));
    assert_eq!(value["LoginRequest"]["password"].as_str(), Some("pa\\ss\u{7}"));
    let payload = payload_of(&Message::LoginReply(LoginStatus::BadUser));
    let value: serde_json::Value = serde_json::from_slice(&payload).unwrap();
    assert_eq!(value["LoginReply"].as_str(), Some("BadUser"));
    let payload = payload_of(&Message::BadRequest);
    let value: serde_json::Value = serde_json::from_slice(&payload).unwrap();
    assert_eq!(value.as_str(), Some("BadRequest"));
}

#[test]
fn login_reply_bytes_writes_the_text_without_sentinel() {
    assert_eq!(login_reply_bytes(LoginStatus::Accepted), b"{\"LoginReply\":\"Accepted\"}".to_vec());
    assert_eq!(login_reply_bytes(LoginStatus::BadUser), b"{\"LoginReply\":\"BadUser\"}".to_vec());
    assert_eq!(login_reply_bytes(LoginStatus::BadPass), b"{\"LoginReply\":\"BadPass\"}".to_vec());
}

#[test]
fn login_request_bytes_writes_around_the_literals() {
    assert_eq!(
        login_request_bytes(b"\"u\"", b"\"p\""),
        b"{\"LoginRequest\":{\"username\":\"u\",\"password\":\"p\"}}".to_vec()
    );
    assert_eq!(
        login_request_bytes(b"", b""),
        b"{\"LoginRequest\":{\"username\":,\"password\":}}".to_vec()
    );
}

fn split(payload: &[u8]) -> Option<(Vec<u8>, Vec<u8>)> {
    let found = split_tokens(payload)?;
    split_login_request(&found).map(|(username, password)| (username.to_vec(), password.to_vec()))
}

#[test]
fn split_login_request_finds_both_literals() {
    let payload = b"{\"LoginRequest\":{\"username\":\"user\",\"password\":\"pass\"}}";
    assert_eq!(split(payload), Some((b"\"user\"".to_vec(), b"\"pass\"".to_vec())));
}

#[test]
fn split_login_request_finds_the_literals_in_either_order() {
    let payload = b"{\"LoginRequest\":{\"password\":\"pass\",\"username\":\"user\"}}";
    assert_eq!(split(payload), Some((b"\"user\"".to_vec(), b"\"pass\"".to_vec())));
}

#[test]
fn split_login_request_steps_over_white_space_between_tokens() {
    let payload = b" {\t\"LoginRequest\" :\n{ \"username\"\r\n:  \"us er\" , \"password\": \" pass \" }\n}\n";
    assert_eq!(split(payload), Some((b"\"us er\"".to_vec(), b"\" pass \"".to_vec())));
}

#[test]
fn split_login_request_steps_over_escapes() {
    let payload = b"{\"LoginRequest\":{\"username\":\"a\\\"b\",\"password\":\"c\\\\\"}}";
    assert_eq!(split(payload), Some((b"\"a\\\"b\"".to_vec(), b"\"c\\\\\"".to_vec())));
    let payload =
        b"{\"LoginRequest\":{\"username\":\"\\\",\\\"password\\\":\\\"x\",\"password\":\"\"}}";
    assert_eq!(
        split(payload),
        Some((b"\"\\\",\\\"password\\\":\\\"x\"".to_vec(), b"\"\"".to_vec()))
    );
}

#[test]
fn split_login_request_refuses_other_shapes() {
    let refused: [&[u8]; 14] = [
        b"",
        b"{\"LoginRequest\":",
        b"{\"LoginRequest\":{\"username\":",
        b"{\"LoginRequest\":{\"username\":\"user\"}}",
        b"{\"LoginRequest\":{\"username\":\"user\",\"password\":\"pass\"}",
        b"{\"LoginRequest\":{\"username\":\"user\",\"password\":\"pass\"}}}",
        b"{\"LoginRequest\":{\"username\":\"user\",\"password\":\"pass}}",
        b"{\"LoginRequest\":{\"username\":\"user,\"password\":\"pass\"}}",
        b"{\"LoginRequest\":{\"username\":\"user\",\"username\":\"user\"}}",
        b"{\"LoginRequest\":{\"password\":\"pass\",\"password\":\"pass\"}}",
        b"{\"LoginRequest\":{\"username\":user,\"password\":\"pass\"}}",
        b"{\"LoginRequest\":{\"username\":\"us\ner\",\"password\":\"pass\"}}",
        b"{\"LoginRequest\":{\"user name\":\"user\",\"password\":\"pass\"}}",
        b"{\"LoginRequest\":{\"username\":\"user\\",
    ];
    for payload in refused.iter() {
        assert_eq!(split(payload), None);
    }
}

#[test]
fn login_request_from_needs_both_strings() {
    assert_eq!(
        login_request_from(Some("u".to_string()), Some("p".to_string())),
        Ok(request("u", "p"))
    );
    assert_eq!(login_request_from(None, Some("p".to_string())), Err(DecodeError::InvalidString));
    assert_eq!(login_request_from(Some("u".to_string()), None), Err(DecodeError::InvalidString));
    assert_eq!(login_request_from(None, None), Err(DecodeError::InvalidString));
}

#[test]
fn decode_reads_each_login_reply() {
    assert_eq!(
        decode(b"{\"LoginReply\":\"Accepted\"}"),
        Ok(Message::LoginReply(LoginStatus::Accepted))
    );
    assert_eq!(
        decode(b"{\"LoginReply\":\"BadUser\"}"),
        Ok(Message::LoginReply(LoginStatus::BadUser))
    );
    assert_eq!(
        decode(b"{\"LoginReply\":\"BadPass\"}"),
        Ok(Message::LoginReply(LoginStatus::BadPass))
    );
}

#[test]
fn decode_reads_a_bad_request() {
    assert_eq!(decode(b"\"BadRequest\""), Ok(Message::BadRequest));
}

#[test]
fn decode_reads_a_login_request() {
    assert_eq!(
        decode(b"{\"LoginRequest\":{\"username\":\"user\",\"password\":\"pass\"}}"),
        Ok(request("user", "pass"))
    );
    assert_eq!(
        decode(b"{\"LoginRequest\":{\"username\":\"\",\"password\":\"\"}}"),
        Ok(request("", ""))
    );
}

#[test]
fn decode_reads_over_white_space_between_tokens() {
    assert_eq!(
        decode(b"{\"LoginReply\": \"Accepted\"}"),
        Ok(Message::LoginReply(LoginStatus::Accepted))
    );
    assert_eq!(
        decode(b" \t\r\n{ \"LoginReply\"\n:\t\"BadUser\"\r}\n "),
        Ok(Message::LoginReply(LoginStatus::BadUser))
    );
    assert_eq!(decode(b"  \"BadRequest\"\n"), Ok(Message::BadRequest));
    assert_eq!(
        decode(
            b"{\n  \"LoginRequest\": {\n    \"username\": \"user\",\n    \"password\": \"pass\"\n  }\n}"
        ),
        Ok(request("user", "pass"))
    );
}

#[test]
fn decode_keeps_white_space_inside_strings() {
    assert_eq!(
        decode(b"{\"LoginRequest\":{\"username\": \" us er \" ,\"password\":\"  \"}}"),
        Ok(request(" us er ", "  "))
    );
}

#[test]
fn decode_takes_no_other_byte_for_white_space() {
    let refused: [&[u8]; 4] = [
        b"{\"LoginReply\":\x0b\"Accepted\"}",
        b"{\"LoginReply\":\x0c\"Accepted\"}",
        b"{\"LoginReply\":\xa0\"Accepted\"}",
        b"{\"LoginReply\":\x00\"Accepted\"}",
    ];
    for payload in refused.iter() {
        assert_eq!(decode(payload), Err(DecodeError::Malformed));
    }
}

#[test]
fn decode_reads_the_members_in_either_order() {
    assert_eq!(
        decode(b"{\"LoginRequest\":{\"password\":\"pass\",\"username\":\"user\"}}"),
        Ok(request("user", "pass"))
    );
    assert_eq!(
        decode(b"{ \"LoginRequest\" : { \"password\" : \"\" , \"username\" : \"\\u0041\" } }"),
        Ok(request("A", ""))
    );
}

#[test]
fn decode_tokens_reads_what_the_tokens_stand_for() {
    let reply: [&[u8]; 5] = [b"{", b"\"LoginReply\"", b":", b"\"BadPass\"", b"}"];
    assert_eq!(decode_tokens(&reply), Ok(Message::LoginReply(LoginStatus::BadPass)));
    let bad: [&[u8]; 1] = [b"\"BadRequest\""];
    assert_eq!(decode_tokens(&bad), Ok(Message::BadRequest));
    let none: [&[u8]; 0] = [];
    assert_eq!(decode_tokens(&none), Err(DecodeError::UnknownVariant));
    let short: [&[u8]; 4] = [b"{", b"\"LoginReply\"", b":", b"\"BadPass\""];
    assert_eq!(decode_tokens(&short), Err(DecodeError::Malformed));
    let request_tokens: [&[u8]; 13] = [
        b"{", b"\"LoginRequest\"", b":", b"{", b"\"password\"", b":", b"\"p\"", b",",
        b"\"username\"", b":", b"\"u\"", b"}", b"}",
    ];
    assert_eq!(decode_tokens(&request_tokens), Ok(request("u", "p")));
}

#[test]
fn decode_reads_escapes_in_strings() {
    assert_eq!(
        decode(b"{\"LoginRequest\":{\"username\":\"\\u0041\\n\\\"\",\"password\":\"\\\\\\/\"}}"),
        Ok(request("A\n\"", "\\/"))
    );
    assert_eq!(
        decode(b"{\"LoginRequest\":{\"username\":\"\\ud83d\\ude00\",\"password\":\"\\u00e9\"}}"),
        Ok(request("\u{1f600}", "\u{e9}"))
    );
}

#[test]
fn decode_reads_strings_as_utf8() {
    let mut payload = b"{\"LoginRequest\":{\"username\":\"".to_vec();
    payload.extend_from_slice("gr\u{fc}\u{df}e".as_bytes());
    payload.extend_from_slice(b"\",\"password\":\"");
    payload.extend_from_slice("\u{4e16}\u{754c}".as_bytes());
    payload.extend_from_slice(b"\"}}");
    assert_eq!(decode(&payload), Ok(request("gr\u{fc}\u{df}e", "\u{4e16}\u{754c}")));
}

#[test]
fn decode_refuses_an_unknown_variant() {
    let refused: [&[u8]; 11] = [
        b"",
        b"  \n",
        b"{}",
        b"null",
        b"\"Accepted\"",
        b"\"badrequest\"",
        b"\"Bad Request\"",
        b"\"BadRequest\"\"BadRequest\"",
        b"{\"Logout\":null}",
        b"{\"loginreply\":\"Accepted\"}",
        b"[\"LoginReply\",\"Accepted\"]",
    ];
    for payload in refused.iter() {
        assert_eq!(decode(payload), Err(DecodeError::UnknownVariant));
    }
}

#[test]
fn decode_refuses_a_malformed_reply() {
    let refused: [&[u8]; 10] = [
        b"{\"LoginReply\":\"Accepted}",
        b"{\"LoginReply\":\"Acc epted\"}",
        b"{\"LoginReply\"\"Accepted\"}",
        b"{\"LoginReply\":",
        b"{\"LoginReply\":\"Accepted\"",
        b"{\"LoginReply\":\"Accepted\"}}",
        b"{\"LoginReply\":\"Maybe\"}",
        b"{\"LoginReply\":\"accepted\"}",
        b"{\"LoginReply\":null}",
        b"{\"LoginReply\":\"BadUser\"}{\"LoginReply\":\"BadUser\"}",
    ];
    for payload in refused.iter() {
        assert_eq!(decode(payload), Err(DecodeError::Malformed));
    }
}

#[test]
fn decode_refuses_a_malformed_request() {
    let refused: [&[u8]; 10] = [
        b"{\"LoginRequest\":{\"username\":\"user\",\"username\":\"user\"}}",
        b"{\"LoginRequest\":{\"username\":\"user\",\"password\":\"pass\",}}",
        b"{\"LoginRequest\":{\"username\":\"us\ner\",\"password\":\"pass\"}}",
        b"{\"LoginRequest\":",
        b"{\"LoginRequest\":{}}",
        b"{\"LoginRequest\":{\"username\":\"user\"}}",
        b"{\"LoginRequest\":{\"password\":\"pass\"}}",
        b"{\"LoginRequest\":{\"username\":\"user\",\"password\":\"pass\"}}x",
        b"{\"LoginRequest\":{\"username\":\"user\",\"password\":7}}",
        b"{\"LoginRequest\":{\"username\":\"user\",\"password\":\"pass\"",
    ];
    for payload in refused.iter() {
        assert_eq!(decode(payload), Err(DecodeError::Malformed));
    }
}

#[test]
fn decode_refuses_a_string_that_is_no_json() {
    let refused: [&[u8]; 4] = [
        b"{\"LoginRequest\":{\"username\":\"\\x\",\"password\":\"pass\"}}",
        b"{\"LoginRequest\":{\"username\":\"user\",\"password\":\"\\u12\"}}",
        b"{\"LoginRequest\":{\"username\":\"\\ud83d\",\"password\":\"pass\"}}",
        b"{\"LoginRequest\":{\"username\":\"\xff\",\"password\":\"pass\"}}",
    ];
    for payload in refused.iter() {
        assert_eq!(decode(payload), Err(DecodeError::InvalidString));
    }
}

#[test]
fn decode_gives_back_what_send_message_wrote() {
    let messages = [
        request("user", "pass"),
        request("", ""),
        request("\"", "\\"),
        request("\\\"", "\"\\"),
        request("a\"b\\c\n\r\t\u{8}\u{c}", "\u{0}\u{1}\u{1f}\u{7f}"),
        request("\",\"password\":\"", "}}"),
        request("gr\u{fc}\u{df}e \u{4e16}\u{754c} \u{1f600}", "\u{2028}\u{feff}"),
        request(&"A".repeat(128), &"F".repeat(128)),
        Message::LoginReply(LoginStatus::Accepted),
        Message::LoginReply(LoginStatus::BadUser),
        Message::LoginReply(LoginStatus::BadPass),
        Message::BadRequest,
    ];
    for message in messages.iter() {
        assert_eq!(decode(&payload_of(message)), Ok(message.clone()));
        assert_eq!(get_message(&send_message(message)), Ok(message.clone()));
    }
}

#[test]
fn decode_gives_back_every_single_character() {
    for code in 0..0x3000u32 {
        if let Some(c) = char::from_u32(code) {
            let message = request(&c.to_string(), &format!("x{}y", c));
            assert_eq!(get_message(&send_message(&message)), Ok(message));
        }
    }
}

#[test]
fn decode_gives_back_every_character_in_blocks() {
    let mut code = 0u32;
    while code <= 0x10FFFF {
        let block: String = (code..code + 0x1000).filter_map(char::from_u32).collect();
        let message = request(&block, &block.chars().rev().collect::<String>());
        let envelope = send_message(&message);
        assert_eq!(envelope.iter().filter(|byte| **byte == 0).count(), 1);
        assert_eq!(get_message(&envelope), Ok(message));
        code += 0x1000;
    }
}

#[test]
fn get_message_reads_the_first_frame() {
    assert_eq!(
        get_message(b"{\"LoginReply\":\"BadPass\"}\0"),
        Ok(Message::LoginReply(LoginStatus::BadPass))
    );
    assert_eq!(get_message(b"\"BadRequest\"\0\"BadRequest\"\0"), Ok(Message::BadRequest));
    assert_eq!(get_message(b"\"BadRequest\"\0garbage"), Ok(Message::BadRequest));
}

#[test]
fn get_message_fails_without_a_frame() {
    assert_eq!(
        get_message(b"{\"LoginReply\":\"Accepted\"}"),
        Err(ReceiveError::Transport(TransportError::EndOfStream))
    );
    assert_eq!(get_message(b""), Err(ReceiveError::Transport(TransportError::EndOfStream)));
}

#[test]
fn get_message_fails_on_a_frame_that_is_no_message() {
    assert_eq!(get_message(b"\0"), Err(ReceiveError::Decode(DecodeError::UnknownVariant)));
    assert_eq!(get_message(b"hello\0"), Err(ReceiveError::Decode(DecodeError::UnknownVariant)));
    assert_eq!(
        get_message(b"{\"LoginReply\":\"Perhaps\"}\0"),
        Err(ReceiveError::Decode(DecodeError::Malformed))
    );
    assert_eq!(
        get_message(b"{\"LoginRequest\":{\"username\":\"\\q\",\"password\":\"\"}}\0"),
        Err(ReceiveError::Decode(DecodeError::InvalidString))
    );
}

#[test]
fn get_message_is_framing_and_then_decoding() {
    let streams: [&[u8]; 4] = [
        b"{\"LoginReply\":\"Accepted\"}\0",
        b"\"BadRequest\"\0rest",
        b"{\"LoginRequest\":{\"username\":\"u\",\"password\":\"p\"}}\0",
        b"nonsense\0",
    ];
    for stream in streams.iter() {
        let payload = get_stream_string(stream).unwrap();
        assert_eq!(get_message(stream), decode(&payload).map_err(ReceiveError::Decode));
    }
}

#[test]
fn messages_compare_by_variant_and_contents() {
    assert_eq!(request("u", "p"), request("u", "p"));
    assert_ne!(request("u", "p"), request("u", "q"));
    assert_ne!(request("u", "p"), request("v", "p"));
    assert_ne!(request("u", "p"), Message::BadRequest);
    assert_ne!(
        Message::LoginReply(LoginStatus::Accepted),
        Message::LoginReply(LoginStatus::BadUser)
    );
    assert_eq!(Message::BadRequest, Message::BadRequest);
    assert_eq!(request("u", "p").clone(), request("u", "p"));
}
