//! JSON string literals, the one part of the wire text that is not fixed.
//!
//! Writing a string as a literal and reading a literal back are left to
//! `serde_json`. Finding where a literal ends inside a longer text is done
//! here, by the rule that JSON gives for it: a literal ends at the first
//! quote that is not part of an escape.

use vstd::prelude::*;

verus! {

/// The byte that opens and closes a string literal.
pub const QUOTE: u8 = 0x22;

/// The byte that begins an escape inside a string literal.
pub const BACKSLASH: u8 = 0x5C;

/// The lowest byte that may stand unescaped inside a string literal.
pub const SPACE: u8 = 0x20;

/// The JSON string literal that `serde_json::to_vec` writes for `text`.
pub uninterp spec fn json_string_literal(text: Seq<char>) -> Seq<u8>;

/// The string that `serde_json::from_slice` reads from `literal`, or `None`
/// where it rejects the bytes.
pub uninterp spec fn json_string_value(literal: Seq<u8>) -> Option<Seq<char>>;

/// The position of the quote that closes a string literal whose contents
/// go on at `from`: the first quote that no backslash takes along. A
/// backslash takes along the byte after it, whatever that byte is. A byte
/// below [`SPACE`] ends the search: a string literal holds none.
pub open spec fn closing_quote(text: Seq<u8>, from: int) -> Option<int>
    decreases text.len() - from,
{
    if from < 0 || from >= text.len() {
        None
    } else if text[from] == QUOTE {
        Some(from)
    } else if text[from] < SPACE {
        None
    } else if text[from] != BACKSLASH {
        closing_quote(text, from + 1)
    } else if from + 1 < text.len() && text[from + 1] >= SPACE {
        closing_quote(text, from + 2)
    } else {
        None
    }
}

/// Whether `text` is, from its first byte to its last, one string literal:
/// it opens with a quote, and the quote that closes it is its last byte.
pub open spec fn is_string_literal(text: Seq<u8>) -> bool {
    &&& text.len() >= 2
    &&& text[0] == QUOTE
    &&& closing_quote(text, 1) == Some(text.len() - 1)
}

/// Where the string literal that opens at `at` ends: the position after its
/// closing quote. `None` where no literal opens at `at` or it never closes.
pub open spec fn literal_end(text: Seq<u8>, at: int) -> Option<int> {
    if 0 <= at < text.len() && text[at] == QUOTE {
        match closing_quote(text, at + 1) {
            Some(quote) => Some(quote + 1),
            None => None,
        }
    } else {
        None
    }
}

/// A literal that stands inside a longer text closes there where it closes
/// on its own.
pub proof fn lemma_closing_quote_within(whole: Seq<u8>, start: int, literal: Seq<u8>, from: int)
    requires
        0 <= start,
        start + literal.len() <= whole.len(),
        whole.subrange(start, start + literal.len()) == literal,
        closing_quote(literal, from) is Some,
    ensures
        closing_quote(whole, start + from) == Some(start + closing_quote(literal, from).unwrap()),
    decreases literal.len() - from,
{
    assert(0 <= from < literal.len());
    assert(whole[start + from] == whole.subrange(start, start + literal.len())[from]);
    if literal[from] == QUOTE {
    } else if literal[from] != BACKSLASH {
        lemma_closing_quote_within(whole, start, literal, from + 1);
    } else {
        assert(whole[start + from + 1] == whole.subrange(start, start + literal.len())[from + 1]);
        lemma_closing_quote_within(whole, start, literal, from + 2);
    }
}

/// A literal that closes inside a longer text closes at the same place in
/// any part of that text that reaches from before the literal's contents to
/// behind its closing quote.
pub proof fn lemma_closing_quote_of_part(whole: Seq<u8>, start: int, end: int, from: int)
    requires
        0 <= start <= from,
        end <= whole.len(),
        closing_quote(whole, from) is Some,
        closing_quote(whole, from).unwrap() < end,
    ensures
        closing_quote(whole.subrange(start, end), from - start) == Some(
            closing_quote(whole, from).unwrap() - start,
        ),
    decreases whole.len() - from,
{
    let part = whole.subrange(start, end);
    lemma_closing_quote_start(whole, from);
    assert(part[from - start] == whole[from]);
    if whole[from] == QUOTE {
    } else if whole[from] != BACKSLASH {
        lemma_closing_quote_of_part(whole, start, end, from + 1);
    } else {
        lemma_closing_quote_start(whole, from + 2);
        assert(part[from + 1 - start] == whole[from + 1]);
        lemma_closing_quote_of_part(whole, start, end, from + 2);
    }
}

/// Up to its closing quote a literal holds no byte below [`SPACE`].
pub proof fn lemma_closing_quote_bytes(text: Seq<u8>, from: int, at: int)
    requires
        closing_quote(text, from) is Some,
        from <= at <= closing_quote(text, from).unwrap(),
    ensures
        at < text.len(),
        text[at] >= SPACE,
    decreases text.len() - from,
{
    if text[from] == QUOTE {
    } else if text[from] != BACKSLASH {
        if at > from {
            lemma_closing_quote_bytes(text, from + 1, at);
        }
    } else {
        lemma_closing_quote_start(text, from + 2);
        if at > from + 1 {
            lemma_closing_quote_bytes(text, from + 2, at);
        }
    }
}

/// The closing quote lies at or after the place from which it is sought.
pub proof fn lemma_closing_quote_start(text: Seq<u8>, from: int)
    requires
        closing_quote(text, from) is Some,
    ensures
        from <= closing_quote(text, from).unwrap() < text.len(),
        text[closing_quote(text, from).unwrap()] == QUOTE,
    decreases text.len() - from,
{
    if text[from] == QUOTE {
    } else if text[from] != BACKSLASH {
        lemma_closing_quote_start(text, from + 1);
    } else {
        lemma_closing_quote_start(text, from + 2);
    }
}

/// A string literal holds no byte below [`SPACE`]: no NUL in particular.
pub proof fn lemma_string_literal_bytes(text: Seq<u8>)
    requires
        is_string_literal(text),
    ensures
        forall|at: int| 0 <= at < text.len() ==> #[trigger] text[at] >= SPACE,
{
    assert forall|at: int| 0 <= at < text.len() implies #[trigger] text[at] >= SPACE by {
        if at >= 1 {
            lemma_closing_quote_bytes(text, 1, at);
        }
    }
}

/// Seeks the quote that closes a string literal whose contents go on at
/// `from`.
pub fn find_closing_quote(text: &[u8], from: usize) -> (out: Option<usize>)
    ensures
        match out {
            Some(at) => closing_quote(text@, from as int) == Some(at as int),
            None => closing_quote(text@, from as int) is None,
        },
{
    let mut at = from;
    while at < text.len()
        invariant
            from <= at,
            closing_quote(text@, at as int) == closing_quote(text@, from as int),
        decreases text.len() - at,
    {
        let byte = text[at];
        if byte == QUOTE {
            return Some(at);
        } else if byte < SPACE {
            return None;
        } else if byte != BACKSLASH {
            at += 1;
        } else if at + 1 < text.len() && text[at + 1] >= SPACE {
            at += 2;
        } else {
            return None;
        }
    }
    None
}

/// Seeks the end of the string literal that opens at `at`.
pub fn find_literal_end(text: &[u8], at: usize) -> (out: Option<usize>)
    ensures
        match out {
            Some(end) => literal_end(text@, at as int) == Some(end as int) && at < end <= text@.len(),
            None => literal_end(text@, at as int) is None,
        },
{
    if at < text.len() && text[at] == QUOTE {
        match find_closing_quote(text, at + 1) {
            Some(quote) => {
                proof {
                    lemma_closing_quote_start(text@, at + 1);
                }
                Some(quote + 1)
            },
            None => None,
        }
    } else {
        None
    }
}

/// The error of `serde_json`, carried through unopened: the library only
/// asks whether there is one.
#[verifier::external_type_specification]
#[verifier::external_body]
pub struct ExJsonError(serde_json::Error);

/// Calls `serde_json::to_vec` on a string slice. For a string the call
/// never returns an error: it does so only where a value refuses to be
/// written or a map has a key that is no string, and writing into a vector
/// cannot fail.
///
/// The contract names the bytes written `json_string_literal(text)` and
/// claims two things of them. They are one string literal by the rule of
/// [`closing_quote`]: the writer puts a quote at either end and, between
/// the two, writes every quote, backslash and byte below `0x20` of the
/// string as an escape that begins with a backslash and holds no byte
/// below `0x20`, and every other byte as it is. And
/// `serde_json::from_slice` reads `text` back from them.
#[verifier::external_body]
pub(crate) fn write_string_literal(text: &str) -> (out: Vec<u8>)
    ensures
        out@ == json_string_literal(text@),
        is_string_literal(out@),
        json_string_value(out@) == Some(text@),
{
    serde_json::to_vec(text).unwrap_or_default()
}

/// Calls `serde_json::from_slice` for a `String`. The contract names what
/// the call gives `json_string_value(literal)`: the string that it reads,
/// or `None` where it returns an error.
#[verifier::external_body]
pub(crate) fn read_string_literal(literal: &[u8]) -> (out: Result<String, serde_json::Error>)
    ensures
        match out {
            Ok(text) => json_string_value(literal@) == Some(text@),
            Err(_) => json_string_value(literal@) is None,
        },
{
    serde_json::from_slice::<String>(literal)
}

} // verus!
