//! Characters and strings: what white space is, and the calls into the
//! standard library that build and decode strings.
use vstd::prelude::*;
use vstd::utf8::{decode_utf8, encode_utf8, valid_utf8};

verus! {

/// The code points that carry the Unicode property `White_Space`.
pub open spec fn is_white_space(c: char) -> bool {
    ||| '\u{9}' <= c <= '\u{d}'
    ||| c == ' '
    ||| c == '\u{85}'
    ||| c == '\u{a0}'
    ||| c == '\u{1680}'
    ||| '\u{2000}' <= c <= '\u{200a}'
    ||| c == '\u{2028}'
    ||| c == '\u{2029}'
    ||| c == '\u{202f}'
    ||| c == '\u{205f}'
    ||| c == '\u{3000}'
}

/// Whether `c` is white space as Unicode defines it, which is how
/// `char::is_whitespace` tells.
pub fn is_whitespace(c: char) -> (b: bool)
    ensures
        b == is_white_space(c),
{
    ('\u{9}' <= c && c <= '\u{d}') || c == ' ' || c == '\u{85}' || c == '\u{a0}' || c
        == '\u{1680}' || ('\u{2000}' <= c && c <= '\u{200a}') || c == '\u{2028}' || c
        == '\u{2029}' || c == '\u{202f}' || c == '\u{205f}' || c == '\u{3000}'
}

/// Calls `String::push`. The contract says that the character is appended
/// at the end.
#[verifier::external_body]
pub(crate) fn push_char(s: &mut String, c: char)
    ensures
        final(s)@ == old(s)@.push(c),
{
    s.push(c)
}

/// Every character takes at least one byte in UTF-8.
proof fn lemma_bytes_bound_chars(chars: Seq<char>)
    ensures
        chars.len() <= encode_utf8(chars).len(),
    decreases chars.len(),
{
    if chars.len() > 0 {
        lemma_bytes_bound_chars(chars.drop_first());
    }
}

/// Establishes that a `usize` can count the characters of `s`: it counts
/// the bytes of `s`, and there are no more characters than bytes.
pub(crate) fn chars_fit_usize(s: &String)
    ensures
        s@.len() <= usize::MAX,
{
    proof {
        lemma_bytes_bound_chars(s@);
    }
    let _ = s.as_str().as_bytes().len();
}

/// What lossy decoding makes of bytes that are not valid UTF-8: the
/// characters that could be decoded, with U+FFFD in place of each malformed
/// stretch.
pub uninterp spec fn repaired_text(bytes: Seq<u8>) -> Seq<char>;

/// The text that lossy decoding makes of `bytes`: the text that they encode
/// where they are valid UTF-8, and a repaired text where they are not.
pub open spec fn lossy_text(bytes: Seq<u8>) -> Seq<char> {
    if valid_utf8(bytes) {
        decode_utf8(bytes)
    } else {
        repaired_text(bytes)
    }
}

/// Calls `String::from_utf8_lossy` and takes the result as a `String`. The
/// contract says what the documentation says of well-formed input, that
/// valid UTF-8 comes back as the text that it encodes, and gives a name to
/// what comes back for the rest.
#[verifier::external_body]
pub(crate) fn decode_lossy(bytes: &[u8]) -> (text: String)
    ensures
        valid_utf8(bytes@) ==> text@ == decode_utf8(bytes@),
        !valid_utf8(bytes@) ==> text@ == repaired_text(bytes@),
{
    String::from_utf8_lossy(bytes).into_owned()
}

} // verus!
