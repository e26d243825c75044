//! What an array of objects is, told without the decoder: how JSON reads
//! string literals, which braces count, and how the text of an array is made
//! of its elements.
use vstd::prelude::*;
use crate::text::is_white_space;

verus! {

/// Where a position stands with respect to the string literals of a text,
/// read as JSON reads them.
pub enum Quoting {
    /// Outside every string literal.
    Outside,
    /// Inside a string literal.
    Inside,
    /// Inside a string literal, right after the backslash that opens an
    /// escape sequence.
    Escaped,
}

/// The standing after `c`, from the standing `q` before it. A backslash
/// inside a string escapes the character after it, whatever that is.
pub open spec fn quoting_step(q: Quoting, c: char) -> Quoting {
    match q {
        Quoting::Outside => if c == '"' {
            Quoting::Inside
        } else {
            Quoting::Outside
        },
        Quoting::Inside => if c == '"' {
            Quoting::Outside
        } else if c == '\\' {
            Quoting::Escaped
        } else {
            Quoting::Inside
        },
        Quoting::Escaped => Quoting::Inside,
    }
}

/// The standing at the end of `text`, which begins outside every string.
pub open spec fn quoting_after(text: Seq<char>) -> Quoting
    decreases text.len(),
{
    if text.len() == 0 {
        Quoting::Outside
    } else {
        quoting_step(quoting_after(text.drop_last()), text.last())
    }
}

/// The braces opened in `text` less the braces closed in it, counting only
/// those that stand outside string literals.
pub open spec fn brace_balance(text: Seq<char>) -> int
    decreases text.len(),
{
    if text.len() == 0 {
        0
    } else {
        let front = text.drop_last();
        let outside = quoting_after(front) == Quoting::Outside;
        brace_balance(front) + if outside && text.last() == '{' {
            1int
        } else if outside && text.last() == '}' {
            -1int
        } else {
            0int
        }
    }
}

/// The text of one object: it opens with a brace, and the brace that closes
/// it is its last character.
pub open spec fn is_object_text(text: Seq<char>) -> bool {
    &&& text.len() >= 2
    &&& text[0] == '{'
    &&& forall|i: int| 0 < i < text.len() ==> brace_balance(#[trigger] text.take(i)) > 0
    &&& brace_balance(text) == 0
}

/// Whether the character at `i` is a quote that closes a string right after
/// an escaped backslash, as in `"C:\\"`.
pub open spec fn closes_after_escaped_backslash(text: Seq<char>, i: int) -> bool {
    &&& 0 < i < text.len()
    &&& text[i] == '"'
    &&& text[i - 1] == '\\'
    &&& quoting_after(text.take(i - 1)) == Quoting::Escaped
}

/// No string literal of `text` ends with an escaped backslash.
pub open spec fn strings_end_plainly(text: Seq<char>) -> bool {
    forall|i: int| !closes_after_escaped_backslash(text, i)
}

/// Text that may stand between two objects: it opens no object and no
/// string. Commas, white space and the closing bracket are of this kind.
pub open spec fn is_filler(text: Seq<char>) -> bool {
    forall|i: int| 0 <= i < text.len() ==> text[i] != '{' && text[i] != '"'
}

/// Text made of white space only.
pub open spec fn is_blank(text: Seq<char>) -> bool {
    forall|i: int| 0 <= i < text.len() ==> is_white_space(#[trigger] text[i])
}

/// The elements of an array written out: each object with its filler in
/// front of it.
pub open spec fn elements_text(fillers: Seq<Seq<char>>, objects: Seq<Seq<char>>) -> Seq<char>
    recommends
        fillers.len() == objects.len(),
    decreases objects.len(),
{
    if objects.len() == 0 {
        Seq::empty()
    } else {
        elements_text(fillers.drop_last(), objects.drop_last()) + fillers.last() + objects.last()
    }
}

/// A whole array written out: blank `lead`, the opening bracket, the
/// elements, and `tail` (the closing bracket and what follows it).
pub open spec fn array_text(
    lead: Seq<char>,
    fillers: Seq<Seq<char>>,
    objects: Seq<Seq<char>>,
    tail: Seq<char>,
) -> Seq<char>
    recommends
        fillers.len() == objects.len(),
{
    lead + seq!['['] + elements_text(fillers, objects) + tail
}

} // verus!
