//! What holds of the decoder whatever it is fed, and what holds when it is
//! fed an array of objects.
use vstd::prelude::*;
use crate::grammar::{
    array_text, brace_balance, closes_after_escaped_backslash, elements_text, is_blank,
    is_filler, is_object_text, quoting_after, strings_end_plainly, Quoting,
};
use crate::text::is_white_space;
use crate::model::{
    between_objects, completes, initial_state, is_consistent, rests_between_objects, objects_of, objects_of_chunks, state_after,
    state_after_chunks, step, StreamState,
};

verus! {

/// Consuming `a` and then `b` is consuming `a + b`: the state is the same at
/// the end, and the objects completed are those of `a` followed by those
/// that `b` completes from where `a` stopped.
pub proof fn lemma_concat(s: StreamState, a: Seq<char>, b: Seq<char>)
    ensures
        state_after(s, a + b) == state_after(state_after(s, a), b),
        objects_of(s, a + b) == objects_of(s, a) + objects_of(state_after(s, a), b),
    decreases b.len(),
{
    if b.len() > 0 {
        lemma_concat(s, a, b.drop_last());
        assert((a + b).drop_last() =~= a + b.drop_last());
        assert((a + b).last() == b.last());
    }
}

/// Whatever a decoder consumes, its state stays consistent.
pub proof fn law_states_stay_consistent(s: StreamState, input: Seq<char>)
    requires
        is_consistent(s),
    ensures
        is_consistent(state_after(s, input)),
    decreases input.len(),
{
    if input.len() > 0 {
        law_states_stay_consistent(s, input.drop_last());
    }
}

/// The buffer is filled only while an object is open: a decoder that rests
/// between objects still does after any character but a quote met outside
/// every object, which opens a string there and is kept.
pub proof fn law_buffer_fills_inside_objects(s: StreamState, c: char)
    requires
        rests_between_objects(s),
        !(s.depth == 0 && c == '"'),
    ensures
        rests_between_objects(step(s, c)),
{
}

/// Where a stream is cut into chunks does not matter: fed chunk by chunk, a
/// decoder ends in the state, and completes the objects, that it would with
/// the whole stream fed at once. The chunks may be of any length, empty ones
/// and single characters included.
pub proof fn law_chunk_boundaries(s: StreamState, chunks: Seq<Seq<char>>)
    ensures
        state_after_chunks(s, chunks) == state_after(s, chunks.flatten()),
        objects_of_chunks(s, chunks) == objects_of(s, chunks.flatten()),
    decreases chunks.len(),
{
    chunks.lemma_flatten_and_flatten_alt_are_equivalent();
    if chunks.len() > 0 {
        let front = chunks.drop_last();
        law_chunk_boundaries(s, front);
        front.lemma_flatten_and_flatten_alt_are_equivalent();
        assert(chunks.flatten() =~= front.flatten() + chunks.last());
        lemma_concat(s, front.flatten(), chunks.last());
    }
}

/// How the two flags of a decoder follow the string literals of the text
/// `read` so far. After an escaped backslash the decoder still holds its
/// escape flag, though the escape sequence is over.
spec fn flags_follow(s: StreamState, read: Seq<char>) -> bool {
    match quoting_after(read) {
        Quoting::Outside => !s.in_string && !s.escape_next,
        Quoting::Escaped => s.in_string && s.escape_next,
        Quoting::Inside => s.in_string && (s.escape_next ==> read.len() > 0 && read.last() == '\\'
            && quoting_after(read.drop_last()) == Quoting::Escaped),
    }
}

/// What `law_strings_hide_braces` states, with all that its induction
/// carries.
proof fn lemma_flags_and_depth(s: StreamState, text: Seq<char>)
    requires
        s.started,
        !s.in_string,
        !s.escape_next,
        strings_end_plainly(text),
        forall|i: int| 0 <= i <= text.len() ==> s.depth + brace_balance(#[trigger] text.take(i)) >= 0,
    ensures
        state_after(s, text).started,
        state_after(s, text).depth == s.depth + brace_balance(text),
        flags_follow(state_after(s, text), text),
    decreases text.len(),
{
    if text.len() > 0 {
        let n = text.len() as int;
        let front = text.drop_last();
        assert(text.take(n) =~= text);
        assert forall|i: int| 0 <= i <= front.len() implies s.depth + brace_balance(
            #[trigger] front.take(i),
        ) >= 0 by {
            assert(front.take(i) =~= text.take(i));
        }
        assert forall|i: int| !closes_after_escaped_backslash(front, i) by {
            if 0 < i < front.len() {
                assert(front.take(i - 1) =~= text.take(i - 1));
                assert(!closes_after_escaped_backslash(text, i));
            }
        }
        lemma_flags_and_depth(s, front);
        let before = state_after(s, front);
        if before.escape_next && text.last() == '"' && quoting_after(front) == Quoting::Inside {
            assert(front.drop_last() =~= text.take(n - 2));
            assert(closes_after_escaped_backslash(text, n - 1));
        }
    }
}

/// Braces inside string literals do not count, and an escaped quote ends no
/// string: as long as no brace closes what was never opened, the depth of a
/// decoder moves by the braces that stand outside string literals, and the
/// decoder is inside a string exactly where the text is. Text with a string
/// that ends with an escaped backslash is left out: there the decoder takes
/// the closing quote for an escaped one.
pub proof fn law_strings_hide_braces(s: StreamState, text: Seq<char>)
    requires
        s.started,
        !s.in_string,
        !s.escape_next,
        strings_end_plainly(text),
        forall|i: int| 0 <= i <= text.len() ==> s.depth + brace_balance(#[trigger] text.take(i)) >= 0,
    ensures
        state_after(s, text).depth == s.depth + brace_balance(text),
        state_after(s, text).in_string == (quoting_after(text) != Quoting::Outside),
{
    lemma_flags_and_depth(s, text);
}

/// Inside an object the decoder buffers every character and completes
/// nothing.
proof fn lemma_inside_object(text: Seq<char>, i: int)
    requires
        is_object_text(text),
        strings_end_plainly(text),
        0 < i < text.len(),
    ensures
        state_after(between_objects(), text.take(i)).started,
        state_after(between_objects(), text.take(i)).depth == brace_balance(text.take(i)),
        state_after(between_objects(), text.take(i)).buffer == text.take(i),
        flags_follow(state_after(between_objects(), text.take(i)), text.take(i)),
        objects_of(between_objects(), text.take(i)) == Seq::<Seq<char>>::empty(),
    decreases i,
{
    let read = text.take(i);
    let front = text.take(i - 1);
    assert(read.drop_last() =~= front);
    assert forall|j: int| 0 <= j <= read.len() implies brace_balance(#[trigger] read.take(j))
        >= 0 by {
        assert(read.take(j) =~= text.take(j));
    }
    assert forall|j: int| !closes_after_escaped_backslash(read, j) by {
        if 0 < j < read.len() {
            assert(read.take(j - 1) =~= text.take(j - 1));
            assert(!closes_after_escaped_backslash(text, j));
        }
    }
    lemma_flags_and_depth(between_objects(), read);
    let before = state_after(between_objects(), front);
    if i == 1 {
        assert(front =~= Seq::<char>::empty());
        assert(objects_of(between_objects(), front) =~= Seq::<Seq<char>>::empty());
    } else {
        lemma_inside_object(text, i - 1);
    }
    assert(step(before, text[i - 1]).buffer =~= read);
    assert(!completes(before, text[i - 1]));
}

/// An object met between two elements comes out whole: the decoder
/// completes exactly that text, character for character, and is between two
/// elements again. The one text for which this does not hold is left out: an
/// object with a string that ends with an escaped backslash, after which the
/// decoder takes the closing quote for an escaped one.
pub proof fn law_object_comes_out_whole(text: Seq<char>)
    requires
        is_object_text(text),
        strings_end_plainly(text),
    ensures
        state_after(between_objects(), text) == between_objects(),
        objects_of(between_objects(), text) == seq![text],
{
    let front = text.take(text.len() - 1);
    lemma_inside_object(text, text.len() - 1);
    assert(text.drop_last() =~= front);
    assert(front.push(text.last()) =~= text);
    assert(completes(state_after(between_objects(), front), text.last()));
}

/// Between two elements, text that opens no object and no string is
/// dropped: it changes nothing and completes nothing.
pub proof fn law_filler_is_dropped(filler: Seq<char>)
    requires
        is_filler(filler),
    ensures
        state_after(between_objects(), filler) == between_objects(),
        objects_of(between_objects(), filler) == Seq::<Seq<char>>::empty(),
    decreases filler.len(),
{
    if filler.len() > 0 {
        law_filler_is_dropped(filler.drop_last());
        assert(step(between_objects(), filler.last()) == between_objects());
    }
}

/// White space in front of the array is skipped, and the opening bracket
/// after it starts the array without entering any object's text.
pub proof fn law_array_opens(lead: Seq<char>)
    requires
        is_blank(lead),
    ensures
        state_after(initial_state(), lead) == initial_state(),
        objects_of(initial_state(), lead) == Seq::<Seq<char>>::empty(),
        state_after(initial_state(), lead + seq!['[']) == between_objects(),
        objects_of(initial_state(), lead + seq!['[']) == Seq::<Seq<char>>::empty(),
    decreases lead.len(),
{
    if lead.len() > 0 {
        law_array_opens(lead.drop_last());
        assert(step(initial_state(), lead.last()) == initial_state());
    }
    assert(state_after(initial_state(), lead) == initial_state());
    let opened = lead + seq!['['];
    assert(opened.drop_last() =~= lead);
    assert(!is_white_space('['));
    assert(state_after(initial_state(), opened) == step(initial_state(), '['));
}

/// The elements of an array, met after its opening bracket, come out one
/// for one and in order, and none of the filler between them comes with
/// them.
proof fn lemma_elements(fillers: Seq<Seq<char>>, objects: Seq<Seq<char>>)
    requires
        fillers.len() == objects.len(),
        forall|k: int| 0 <= k < fillers.len() ==> is_filler(#[trigger] fillers[k]),
        forall|k: int|
            0 <= k < objects.len() ==> is_object_text(#[trigger] objects[k])
                && strings_end_plainly(objects[k]),
    ensures
        state_after(between_objects(), elements_text(fillers, objects)) == between_objects(),
        objects_of(between_objects(), elements_text(fillers, objects)) == objects,
    decreases objects.len(),
{
    if objects.len() > 0 {
        let earlier = elements_text(fillers.drop_last(), objects.drop_last());
        lemma_elements(fillers.drop_last(), objects.drop_last());
        law_filler_is_dropped(fillers.last());
        law_object_comes_out_whole(objects.last());
        lemma_concat(between_objects(), earlier, fillers.last());
        lemma_concat(between_objects(), earlier + fillers.last(), objects.last());
        assert(objects.drop_last().push(objects.last()) =~= objects);
    }
}

/// A decoder at the start of a stream that holds an array of objects
/// completes exactly the objects of the array, in their order, each with the
/// text it has in the stream, and ends between two elements. White space
/// before the bracket and the filler around the objects appear in none of
/// them. Objects with a string that ends with an escaped backslash are left
/// out, as in [`law_object_comes_out_whole`].
pub proof fn law_array_of_objects(
    lead: Seq<char>,
    fillers: Seq<Seq<char>>,
    objects: Seq<Seq<char>>,
    tail: Seq<char>,
)
    requires
        is_blank(lead),
        fillers.len() == objects.len(),
        forall|k: int| 0 <= k < fillers.len() ==> is_filler(#[trigger] fillers[k]),
        forall|k: int|
            0 <= k < objects.len() ==> is_object_text(#[trigger] objects[k])
                && strings_end_plainly(objects[k]),
        is_filler(tail),
    ensures
        state_after(initial_state(), array_text(lead, fillers, objects, tail))
            == between_objects(),
        objects_of(initial_state(), array_text(lead, fillers, objects, tail)) == objects,
{
    let opened = lead + seq!['['];
    let elements = elements_text(fillers, objects);
    law_array_opens(lead);
    lemma_elements(fillers, objects);
    law_filler_is_dropped(tail);
    lemma_concat(initial_state(), opened, elements);
    lemma_concat(initial_state(), opened + elements, tail);
}

} // verus!
