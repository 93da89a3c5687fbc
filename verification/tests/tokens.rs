use login_protocol::tokens::{is_white_space, join_tokens, split_tokens};

fn split(text: &[u8]) -> Option<Vec<Vec<u8>>> {
    split_tokens(text).map(|found| found.iter().map(|token| token.to_vec()).collect())
}

fn list(tokens: &[&[u8]]) -> Option<Vec<Vec<u8>>> {
    Some(tokens.iter().map(|token| token.to_vec()).collect())
}

#[test]
fn white_space_is_four_bytes() {
    for byte in 0..=255u8 {
        assert_eq!(is_white_space(byte), matches!(byte, b' ' | b'\t' | b'\n' | b'\r'));
    }
}

#[test]
fn text_without_tokens() {
    assert_eq!(split(b""), list(&[]));
    assert_eq!(split(b" \t\r\n  "), list(&[]));
}

#[test]
fn every_mark_is_a_token() {
    assert_eq!(split(b"{}:,"), list(&[b"{", b"}", b":", b","]));
    assert_eq!(split(b"null"), list(&[b"n", b"u", b"l", b"l"]));
    assert_eq!(split(b"\0\x0b"), list(&[b"\0", b"\x0b"]));
}

#[test]
fn every_string_literal_is_a_token() {
    assert_eq!(split(b"\"\""), list(&[b"\"\""]));
    assert_eq!(split(b"\"a b\"\"c\""), list(&[b"\"a b\"", b"\"c\""]));
    assert_eq!(split(b"\"a\\\"b\":\"{}\""), list(&[b"\"a\\\"b\"", b":", b"\"{}\""]));
}

#[test]
fn white_space_belongs_to_no_token() {
    let compact = split(b"{\"LoginReply\":\"Accepted\"}");
    assert_eq!(compact, list(&[b"{", b"\"LoginReply\"", b":", b"\"Accepted\"", b"}"]));
    assert_eq!(split(b"{\"LoginReply\": \"Accepted\"}"), compact);
    assert_eq!(split(b" {\n\t\"LoginReply\"\r:\"Accepted\" } \n"), compact);
}

#[test]
fn string_literal_that_never_closes_has_no_tokens() {
    assert_eq!(split(b"\""), None);
    assert_eq!(split(b"{\"LoginReply\":\"Accepted}"), None);
    assert_eq!(split(b"\"a\\\""), None);
    assert_eq!(split(b"\"a\nb\""), None);
}

#[test]
fn tokens_are_joined_with_nothing_between_them() {
    let none: [&[u8]; 0] = [];
    assert_eq!(join_tokens(&none), Vec::<u8>::new());
    let parts: [&[u8]; 5] = [b"{", b"\"LoginReply\"", b":", b"\"Accepted\"", b"}"];
    assert_eq!(join_tokens(&parts), b"{\"LoginReply\":\"Accepted\"}".to_vec());
}

#[test]
fn joined_tokens_are_split_as_they_were() {
    let parts: [&[u8]; 6] = [b"{", b"\"a b\"", b":", b"\"\\\"\"", b",", b"}"];
    let text = join_tokens(&parts);
    assert_eq!(split(&text), list(&parts));
}
