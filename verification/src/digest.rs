//! Credential digests: SHA-512 of the UTF-8 bytes of a string, written as
//! upper-case hexadecimal text.
//!
//! The digest only hides the literal characters of a credential in transit.
//! It is unsalted and fast, so it is no scheme for storing credentials.

use sha2::Digest;
use vstd::prelude::*;
use vstd::utf8::encode_utf8;

verus! {

/// Number of bytes in a SHA-512 digest.
pub const DIGEST_BYTES: usize = 64;

/// Number of characters in the text of a digest: two per byte.
pub const DIGEST_CHARS: usize = 128;

/// The SHA-512 digest of `data`, as `sha2::Sha512::digest` computes it.
pub uninterp spec fn sha512(data: Seq<u8>) -> Seq<u8>;

/// The upper-case hexadecimal digit for a value below sixteen.
pub open spec fn upper_hex_digit(nibble: int) -> char {
    seq!['0', '1', '2', '3', '4', '5', '6', '7', '8', '9', 'A', 'B', 'C', 'D', 'E', 'F'][nibble]
}

/// The hexadecimal text of `bytes`: character `2 * k` is the digit of the
/// high half of byte `k`, character `2 * k + 1` the digit of its low half.
pub open spec fn hex_text(bytes: Seq<u8>) -> Seq<char> {
    Seq::new(
        2 * bytes.len(),
        |i: int|
            if i % 2 == 0 {
                upper_hex_digit(bytes[i / 2] as int / 16)
            } else {
                upper_hex_digit(bytes[i / 2] as int % 16)
            },
    )
}

/// The digest text of a credential.
pub open spec fn digest_text(input: Seq<char>) -> Seq<char> {
    hex_text(sha512(encode_utf8(input)))
}

/// Whether `c` is one of the sixteen upper-case hexadecimal digits.
pub open spec fn is_upper_hex(c: char) -> bool {
    exists|nibble: int| 0 <= nibble < 16 && c == #[trigger] upper_hex_digit(nibble)
}

/// Hexadecimal text is twice as long as its bytes and holds nothing but
/// upper-case hexadecimal digits.
pub proof fn lemma_hex_text_shape(bytes: Seq<u8>)
    ensures
        hex_text(bytes).len() == 2 * bytes.len(),
        forall|i: int| 0 <= i < hex_text(bytes).len() ==> is_upper_hex(#[trigger] hex_text(bytes)[i]),
{
    assert forall|i: int| 0 <= i < hex_text(bytes).len() implies is_upper_hex(
        #[trigger] hex_text(bytes)[i],
    ) by {
        let byte = bytes[i / 2] as int;
        if i % 2 == 0 {
            assert(hex_text(bytes)[i] == upper_hex_digit(byte / 16));
        } else {
            assert(hex_text(bytes)[i] == upper_hex_digit(byte % 16));
        }
    }
}

/// Calls `sha2::Sha512::digest`. The contract names the bytes that come
/// back `sha512(data)` and claims of them only their number: the output of
/// SHA-512 is 64 bytes long whatever the input.
#[verifier::external_body]
fn sha512_digest(data: &[u8]) -> (out: Vec<u8>)
    ensures
        out@ == sha512(data@),
        out@.len() == DIGEST_BYTES,
{
    sha2::Sha512::digest(data).to_vec()
}

/// The one-character text of a hexadecimal digit.
fn hex_digit_str(nibble: u8) -> (out: &'static str)
    requires
        nibble < 16,
    ensures
        out@ == seq![upper_hex_digit(nibble as int)],
{
    proof {
        reveal_strlit("0123456789ABCDEF");
    }
    let digits = "0123456789ABCDEF";
    let at = nibble as usize;
    let out = digits.substring_ascii(at, at + 1);
    assert(out@ =~= seq![upper_hex_digit(nibble as int)]);
    out
}

/// Writes `bytes` as upper-case hexadecimal text, two digits for every byte.
pub fn hex_encode(bytes: &[u8]) -> (out: String)
    ensures
        out@ == hex_text(bytes@),
{
    let mut out = String::new();
    let mut i: usize = 0;
    while i < bytes.len()
        invariant
            i <= bytes.len(),
            out@ == hex_text(bytes@.take(i as int)),
        decreases bytes.len() - i,
    {
        let byte = bytes[i];
        let ghost before = out@;
        out.append(hex_digit_str(byte / 16));
        out.append(hex_digit_str(byte % 16));
        assert(out@ =~= hex_text(bytes@.take(i + 1))) by {
            let grown = hex_text(bytes@.take(i + 1));
            assert(out@.len() == grown.len());
            assert forall|k: int| 0 <= k < grown.len() implies out@[k] == grown[k] by {
                if k < 2 * i {
                    assert(before[k] == hex_text(bytes@.take(i as int))[k]);
                    assert(bytes@.take(i as int)[k / 2] == bytes@.take(i + 1)[k / 2]);
                }
            }
        }
        i += 1;
    }
    assert(bytes@.take(i as int) =~= bytes@);
    out
}

/// The digest of a credential: the SHA-512 hash of the UTF-8 bytes of
/// `input`, as 128 upper-case hexadecimal characters. The same input always
/// gives the same digest, and no input fails.
pub fn get_hash(input: &String) -> (out: String)
    ensures
        out@ == digest_text(input@),
        out@.len() == DIGEST_CHARS,
        forall|i: int| 0 <= i < out@.len() ==> is_upper_hex(#[trigger] out@[i]),
{
    let raw = sha512_digest(input.as_str().as_bytes());
    proof {
        lemma_hex_text_shape(raw@);
    }
    hex_encode(raw.as_slice())
}

} // verus!
