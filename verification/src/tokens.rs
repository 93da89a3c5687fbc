//! The tokens of a JSON text, as far as the wire text needs them.
//!
//! A text falls apart into tokens: every string literal is one, and so is
//! every other byte that is no white space. White space may stand before,
//! between and after the tokens and belongs to none of them.

use crate::framing::SENTINEL;
use crate::literal::{
    find_literal_end, is_string_literal, lemma_closing_quote_of_part, lemma_closing_quote_start,
    lemma_closing_quote_within, literal_end, QUOTE, SPACE,
};
use vstd::prelude::*;
use vstd::slice::slice_subrange;

verus! {

/// The horizontal tab.
pub const TAB: u8 = 0x09;

/// The line feed.
pub const LINE_FEED: u8 = 0x0A;

/// The carriage return.
pub const CARRIAGE_RETURN: u8 = 0x0D;

/// Whether `byte` is white space in JSON: a space, a tab, a line feed or a
/// carriage return.
pub open spec fn is_white(byte: u8) -> bool {
    byte == SPACE || byte == TAB || byte == LINE_FEED || byte == CARRIAGE_RETURN
}

/// Whether `text` is white space from end to end.
pub open spec fn is_blank(text: Seq<u8>) -> bool {
    forall|at: int| 0 <= at < text.len() ==> is_white(#[trigger] text[at])
}

/// Whether `token` is one token: a string literal, or a single byte that is
/// neither white space nor a quote.
pub open spec fn is_token(token: Seq<u8>) -> bool {
    &&& token.len() >= 1
    &&& !is_white(token[0])
    &&& if token[0] == QUOTE {
        is_string_literal(token)
    } else {
        token.len() == 1
    }
}

/// A token before the tokens of what follows it.
pub open spec fn token_before(token: Seq<u8>, rest: Option<Seq<Seq<u8>>>) -> Option<Seq<Seq<u8>>> {
    match rest {
        Some(rest) => Some(seq![token] + rest),
        None => None,
    }
}

/// Where the token ends that opens `text`, which opens with no white space.
pub open spec fn first_token_end(text: Seq<u8>) -> Option<int> {
    if text[0] == QUOTE {
        literal_end(text, 0)
    } else {
        Some(1)
    }
}

/// The tokens of `text`, in their order. `None` where a string literal
/// opens and never closes.
pub open spec fn tokens(text: Seq<u8>) -> Option<Seq<Seq<u8>>>
    decreases text.len(),
{
    if text.len() == 0 {
        Some(Seq::empty())
    } else if is_white(text[0]) {
        tokens(text.skip(1))
    } else {
        match first_token_end(text) {
            Some(end) => if 0 < end <= text.len() {
                token_before(text.take(end), tokens(text.skip(end)))
            } else {
                None
            },
            None => None,
        }
    }
}

/// The bytes of tokens written one after the other, with nothing between
/// them.
pub open spec fn joined(tokens: Seq<Seq<u8>>) -> Seq<u8>
    decreases tokens.len(),
{
    if tokens.len() == 0 {
        Seq::empty()
    } else {
        tokens[0] + joined(tokens.skip(1))
    }
}

/// The bytes of tokens written one after the other with gaps around them:
/// `gaps[i]` stands before `tokens[i]`, and the last gap after the last
/// token. There is one gap more than there are tokens.
pub open spec fn spaced(tokens: Seq<Seq<u8>>, gaps: Seq<Seq<u8>>) -> Seq<u8>
    decreases tokens.len(),
{
    if tokens.len() == 0 {
        gaps[0]
    } else {
        gaps[0] + tokens[0] + spaced(tokens.skip(1), gaps.skip(1))
    }
}

/// White space before a text changes nothing of its tokens.
pub proof fn lemma_tokens_after_blank(blank: Seq<u8>, rest: Seq<u8>)
    requires
        is_blank(blank),
    ensures
        tokens(blank + rest) == tokens(rest),
    decreases blank.len(),
{
    if blank.len() == 0 {
        assert(blank + rest =~= rest);
    } else {
        let text = blank + rest;
        assert(text[0] == blank[0]);
        assert(text.skip(1) =~= blank.skip(1) + rest);
        assert forall|at: int| 0 <= at < blank.skip(1).len() implies is_white(
            #[trigger] blank.skip(1)[at],
        ) by {
            assert(blank.skip(1)[at] == blank[at + 1]);
        }
        lemma_tokens_after_blank(blank.skip(1), rest);
    }
}

/// A token before a text is the first of the tokens, and the text's own
/// tokens follow it.
pub proof fn lemma_tokens_after_token(token: Seq<u8>, rest: Seq<u8>)
    requires
        is_token(token),
    ensures
        tokens(token + rest) == token_before(token, tokens(rest)),
{
    let text = token + rest;
    assert(text[0] == token[0]);
    if token[0] == QUOTE {
        assert(text.subrange(0, token.len() as int) =~= token);
        lemma_closing_quote_within(text, 0, token, 1);
    }
    assert(first_token_end(text) == Some(token.len() as int));
    assert(text.take(token.len() as int) =~= token);
    assert(text.skip(token.len() as int) =~= rest);
}

/// Tokens written one after the other are read back as they are.
pub proof fn lemma_tokens_of_joined(parts: Seq<Seq<u8>>)
    requires
        forall|i: int| 0 <= i < parts.len() ==> is_token(#[trigger] parts[i]),
    ensures
        tokens(joined(parts)) == Some(parts),
    decreases parts.len(),
{
    if parts.len() > 0 {
        let rest = parts.skip(1);
        assert forall|i: int| 0 <= i < rest.len() implies is_token(#[trigger] rest[i]) by {
            assert(rest[i] == parts[i + 1]);
        }
        lemma_tokens_of_joined(rest);
        lemma_tokens_after_token(parts[0], joined(rest));
        assert(seq![parts[0]] + rest =~= parts);
    }
}

/// Tokens written with white space before, between and after them are
/// read back as they are: the white space counts for nothing.
pub proof fn lemma_tokens_of_spaced(parts: Seq<Seq<u8>>, gaps: Seq<Seq<u8>>)
    requires
        gaps.len() == parts.len() + 1,
        forall|i: int| 0 <= i < parts.len() ==> is_token(#[trigger] parts[i]),
        forall|i: int| 0 <= i < gaps.len() ==> is_blank(#[trigger] gaps[i]),
    ensures
        tokens(spaced(parts, gaps)) == Some(parts),
    decreases parts.len(),
{
    if parts.len() == 0 {
        lemma_tokens_after_blank(gaps[0], Seq::empty());
        assert(gaps[0] + Seq::<u8>::empty() =~= gaps[0]);
    } else {
        let rest = parts.skip(1);
        let rest_gaps = gaps.skip(1);
        assert forall|i: int| 0 <= i < rest.len() implies is_token(#[trigger] rest[i]) by {
            assert(rest[i] == parts[i + 1]);
        }
        assert forall|i: int| 0 <= i < rest_gaps.len() implies is_blank(
            #[trigger] rest_gaps[i],
        ) by {
            assert(rest_gaps[i] == gaps[i + 1]);
        }
        lemma_tokens_of_spaced(rest, rest_gaps);
        let tail = spaced(rest, rest_gaps);
        lemma_tokens_after_token(parts[0], tail);
        lemma_tokens_after_blank(gaps[0], parts[0] + tail);
        assert(gaps[0] + parts[0] + tail =~= gaps[0] + (parts[0] + tail));
        assert(seq![parts[0]] + rest =~= parts);
    }
}

/// A text is its tokens with white space before, between and after them,
/// and with nothing else.
pub proof fn lemma_text_is_spaced_tokens(text: Seq<u8>) -> (gaps: Seq<Seq<u8>>)
    requires
        tokens(text) is Some,
    ensures
        gaps.len() == tokens(text).unwrap().len() + 1,
        forall|i: int| 0 <= i < gaps.len() ==> is_blank(#[trigger] gaps[i]),
        text == spaced(tokens(text).unwrap(), gaps),
    decreases text.len(),
{
    let found = tokens(text).unwrap();
    if text.len() == 0 {
        let gaps = seq![Seq::<u8>::empty()];
        assert(text =~= gaps[0]);
        gaps
    } else if is_white(text[0]) {
        let inner = lemma_text_is_spaced_tokens(text.skip(1));
        let first = seq![text[0]] + inner[0];
        let gaps = seq![first] + inner.skip(1);
        assert(gaps.skip(1) =~= inner.skip(1));
        assert forall|i: int| 0 <= i < gaps.len() implies is_blank(#[trigger] gaps[i]) by {
            if i > 0 {
                assert(gaps[i] == inner[i]);
            }
        }
        assert(text =~= seq![text[0]] + text.skip(1));
        if found.len() == 0 {
            assert(spaced(found, gaps) =~= seq![text[0]] + spaced(found, inner));
        } else {
            assert(spaced(found, gaps) =~= seq![text[0]] + spaced(found, inner));
        }
        gaps
    } else {
        let end = first_token_end(text).unwrap();
        let inner = lemma_text_is_spaced_tokens(text.skip(end));
        let gaps = seq![Seq::<u8>::empty()] + inner;
        let rest = tokens(text.skip(end)).unwrap();
        assert(found == seq![text.take(end)] + rest);
        assert(found.skip(1) =~= rest);
        assert(gaps.skip(1) =~= inner);
        assert forall|i: int| 0 <= i < gaps.len() implies is_blank(#[trigger] gaps[i]) by {
            if i > 0 {
                assert(gaps[i] == inner[i - 1]);
            }
        }
        assert(text =~= Seq::<u8>::empty() + text.take(end) + text.skip(end));
        gaps
    }
}

/// What comes out as a token is one.
pub proof fn lemma_tokens_are_tokens(text: Seq<u8>, i: int)
    requires
        tokens(text) is Some,
        0 <= i < tokens(text).unwrap().len(),
    ensures
        is_token(tokens(text).unwrap()[i]),
    decreases text.len(),
{
    if text.len() == 0 {
    } else if is_white(text[0]) {
        lemma_tokens_are_tokens(text.skip(1), i);
    } else {
        let end = first_token_end(text).unwrap();
        let first = text.take(end);
        let rest = tokens(text.skip(end)).unwrap();
        assert(tokens(text).unwrap() == seq![first] + rest);
        if i == 0 {
            assert(first[0] == text[0]);
            if text[0] == QUOTE {
                lemma_closing_quote_start(text, 1);
                lemma_closing_quote_of_part(text, 0, end, 1);
                assert(text.subrange(0, end) =~= first);
            }
        } else {
            assert((seq![first] + rest)[i] == rest[i - 1]);
            lemma_tokens_are_tokens(text.skip(end), i - 1);
        }
    }
}

/// A text whose tokens hold no sentinel holds none: white space is none.
pub proof fn lemma_tokens_hold_the_text(text: Seq<u8>)
    requires
        tokens(text) is Some,
        forall|i: int|
            0 <= i < tokens(text).unwrap().len() ==> !(#[trigger] tokens(text).unwrap()[i]).contains(
                SENTINEL,
            ),
    ensures
        !text.contains(SENTINEL),
    decreases text.len(),
{
    if text.len() == 0 {
    } else {
        let end = if is_white(text[0]) {
            1
        } else {
            first_token_end(text).unwrap()
        };
        let rest = text.skip(end);
        if !is_white(text[0]) {
            let first = text.take(end);
            let after = tokens(rest).unwrap();
            let all = tokens(text).unwrap();
            assert(all == seq![first] + after);
            assert(all[0] == first);
            assert forall|i: int| 0 <= i < after.len() implies !(#[trigger] after[i]).contains(
                SENTINEL,
            ) by {
                assert(after[i] == all[i + 1]);
            }
        }
        lemma_tokens_hold_the_text(rest);
        if text.contains(SENTINEL) {
            let at = choose|at: int| 0 <= at < text.len() && text[at] == SENTINEL;
            if at < end {
                if !is_white(text[0]) {
                    assert(text.take(end)[at] == SENTINEL);
                    assert(text.take(end).contains(SENTINEL));
                } else {
                    assert(at == 0);
                }
            } else {
                assert(rest[at - end] == SENTINEL);
                assert(rest.contains(SENTINEL));
            }
        }
    }
}

/// What a list of tokens holds, each token as its bytes.
pub open spec fn token_views(found: Seq<&[u8]>) -> Seq<Seq<u8>> {
    Seq::new(found.len(), |i: int| found[i]@)
}

/// Whether `byte` is white space in JSON.
pub fn is_white_space(byte: u8) -> (out: bool)
    ensures
        out == is_white(byte),
{
    byte == SPACE || byte == TAB || byte == LINE_FEED || byte == CARRIAGE_RETURN
}

/// Takes a text apart into its tokens. `None` where a string literal opens
/// and never closes.
pub fn split_tokens<'a>(text: &'a [u8]) -> (out: Option<Vec<&'a [u8]>>)
    ensures
        match out {
            Some(found) => tokens(text@) == Some(token_views(found@)),
            None => tokens(text@) is None,
        },
{
    let mut found: Vec<&'a [u8]> = Vec::new();
    let mut at: usize = 0;
    assert(text@.skip(0) =~= text@);
    assert(Seq::<Seq<u8>>::empty() + tokens(text@).unwrap() =~= tokens(text@).unwrap());
    while at < text.len()
        invariant
            at <= text.len(),
            match tokens(text@.skip(at as int)) {
                Some(rest) => tokens(text@) == Some(token_views(found@) + rest),
                None => tokens(text@) is None,
            },
        decreases text.len() - at,
    {
        let rest = slice_subrange(text, at, text.len());
        let byte = text[at];
        assert(rest@[0] == byte);
        if is_white_space(byte) {
            assert(rest@.skip(1) =~= text@.skip(at + 1));
            at += 1;
        } else {
            let end = if byte == QUOTE {
                match find_literal_end(rest, 0) {
                    Some(end) => end,
                    None => {
                        return None;
                    },
                }
            } else {
                1
            };
            let token = slice_subrange(rest, 0, end);
            let ghost before = token_views(found@);
            found.push(token);
            proof {
                assert(rest@.skip(end as int) =~= text@.skip(at + end));
                assert(rest@.take(end as int) =~= token@);
                assert(token_views(found@) =~= before.push(token@));
                if tokens(text@.skip(at + end)) is Some {
                    let after = tokens(text@.skip(at + end)).unwrap();
                    assert(before + (seq![token@] + after) =~= before.push(token@) + after);
                }
            }
            at += end;
        }
    }
    assert(text@.skip(at as int) =~= Seq::<u8>::empty());
    assert(token_views(found@) + Seq::<Seq<u8>>::empty() =~= token_views(found@));
    Some(found)
}

/// Writes tokens one after the other, with nothing between them.
pub fn join_tokens(parts: &[&[u8]]) -> (out: Vec<u8>)
    ensures
        out@ == joined(token_views(parts@)),
{
    let mut out: Vec<u8> = Vec::new();
    let mut at: usize = 0;
    let ghost all = token_views(parts@);
    assert(all.skip(0) =~= all);
    assert(Seq::<u8>::empty() + joined(all) =~= joined(all));
    while at < parts.len()
        invariant
            at <= parts.len(),
            all == token_views(parts@),
            out@ + joined(all.skip(at as int)) == joined(all),
        decreases parts.len() - at,
    {
        let ghost before = out@;
        let part = parts[at];
        crate::bytes::append(&mut out, part);
        proof {
            let here = all.skip(at as int);
            assert(here[0] == part@);
            assert(here.skip(1) =~= all.skip(at + 1));
            assert(before + (part@ + joined(all.skip(at + 1))) =~= (before + part@) + joined(
                all.skip(at + 1),
            ));
        }
        at += 1;
    }
    assert(all.skip(at as int) =~= Seq::<Seq<u8>>::empty());
    assert(out@ + Seq::<u8>::empty() =~= out@);
    out
}

} // verus!
