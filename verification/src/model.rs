//! What the decoder does, one character at a time: its state, the step from
//! one state to the next, and what a run of steps leaves and hands out.
use vstd::prelude::*;
use crate::text::is_white_space;

verus! {

/// What a decoder remembers between two characters of the stream.
pub struct StreamState {
    /// Number of braces that are open in the object being assembled.
    pub depth: nat,
    /// The characters of the object being assembled.
    pub buffer: Seq<char>,
    /// Whether the position is inside a string literal.
    pub in_string: bool,
    /// Whether the previous character was a backslash inside a string.
    pub escape_next: bool,
    /// Whether the opening bracket of the array has been consumed.
    pub started: bool,
}

/// The state of a decoder that has seen nothing yet.
pub open spec fn initial_state() -> StreamState {
    StreamState {
        depth: 0,
        buffer: Seq::empty(),
        in_string: false,
        escape_next: false,
        started: false,
    }
}

/// The state between two elements of the array: the opening bracket
/// consumed, no object open and nothing buffered.
pub open spec fn between_objects() -> StreamState {
    StreamState { started: true, ..initial_state() }
}

/// Padding in front of the array: white space met before the opening
/// bracket, outside any object and any string.
pub open spec fn is_padding(s: StreamState, c: char) -> bool {
    !s.started && !s.in_string && s.depth == 0 && is_white_space(c)
}

/// The bracket that opens the array.
pub open spec fn is_array_start(s: StreamState, c: char) -> bool {
    !s.started && c == '['
}

/// Whether consuming `c` in state `s` completes an object.
pub open spec fn completes(s: StreamState, c: char) -> bool {
    &&& !is_padding(s, c)
    &&& !is_array_start(s, c)
    &&& c == '}'
    &&& !s.in_string
    &&& s.depth == 1
}

/// The state after consuming `c` in state `s`.
///
/// Padding and the bracket that opens the array are skipped. Of the other
/// characters, a brace outside a string opens or closes an object, a quote
/// that is not escaped opens or closes a string, and a backslash inside a
/// string escapes the character after it; these are buffered wherever they
/// are met. Any other character, an escaped quote and a brace inside a
/// string among them, ends a pending escape and is buffered if an object is
/// open. The brace that closes the outermost object empties the buffer,
/// which [`objects_of`] hands out. A closing brace met while no object is
/// open is dropped, so that the depth never falls below 0.
pub open spec fn step(s: StreamState, c: char) -> StreamState {
    if is_padding(s, c) {
        s
    } else if is_array_start(s, c) {
        StreamState { started: true, ..s }
    } else if c == '{' && !s.in_string {
        StreamState { depth: s.depth + 1, buffer: s.buffer.push(c), ..s }
    } else if c == '}' && !s.in_string {
        if s.depth == 0 {
            s
        } else if s.depth == 1 {
            StreamState { depth: 0, buffer: Seq::empty(), ..s }
        } else {
            StreamState { depth: (s.depth - 1) as nat, buffer: s.buffer.push(c), ..s }
        }
    } else if c == '"' && !s.escape_next {
        StreamState { in_string: !s.in_string, buffer: s.buffer.push(c), ..s }
    } else if c == '\\' && s.in_string {
        StreamState { escape_next: true, buffer: s.buffer.push(c), ..s }
    } else {
        StreamState {
            escape_next: false,
            buffer: if s.depth > 0 { s.buffer.push(c) } else { s.buffer },
            ..s
        }
    }
}

/// The state after consuming all of `input`, in order, from state `s`.
pub open spec fn state_after(s: StreamState, input: Seq<char>) -> StreamState
    decreases input.len(),
{
    if input.len() == 0 {
        s
    } else {
        step(state_after(s, input.drop_last()), input.last())
    }
}

/// The objects completed while consuming `input` from state `s`, in the
/// order in which their closing braces are met.
pub open spec fn objects_of(s: StreamState, input: Seq<char>) -> Seq<Seq<char>>
    decreases input.len(),
{
    if input.len() == 0 {
        Seq::empty()
    } else {
        let before = state_after(s, input.drop_last());
        let earlier = objects_of(s, input.drop_last());
        if completes(before, input.last()) {
            earlier.push(before.buffer.push(input.last()))
        } else {
            earlier
        }
    }
}

/// What holds of every state that a decoder reaches from the start of a
/// stream: the escape flag is up only inside a string, and every open brace
/// is in the buffer.
pub open spec fn is_consistent(s: StreamState) -> bool {
    &&& s.escape_next ==> s.in_string
    &&& s.depth <= s.buffer.len()
}

/// Whether `s` holds nothing while no object is open: at depth 0 the buffer
/// is empty and no string is open.
pub open spec fn rests_between_objects(s: StreamState) -> bool {
    s.depth == 0 ==> s.buffer.len() == 0 && !s.in_string
}

/// The state after consuming the chunks one after another, each from the
/// state that the chunk before it left.
pub open spec fn state_after_chunks(s: StreamState, chunks: Seq<Seq<char>>) -> StreamState
    decreases chunks.len(),
{
    if chunks.len() == 0 {
        s
    } else {
        state_after(state_after_chunks(s, chunks.drop_last()), chunks.last())
    }
}

/// The objects completed while consuming the chunks one after another.
pub open spec fn objects_of_chunks(s: StreamState, chunks: Seq<Seq<char>>) -> Seq<Seq<char>>
    decreases chunks.len(),
{
    if chunks.len() == 0 {
        Seq::empty()
    } else {
        objects_of_chunks(s, chunks.drop_last()) + objects_of(
            state_after_chunks(s, chunks.drop_last()),
            chunks.last(),
        )
    }
}

} // verus!
