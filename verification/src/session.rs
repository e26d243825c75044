//! The decisions of a run that reads a stream, decodes its records and
//! counts them; reading and decoding are left to the caller.
use vstd::prelude::*;
use vstd::utf8::{
    decode_utf8, encode_utf8, encode_utf8_decode_utf8, encode_utf8_valid_utf8, valid_utf8,
};
use crate::assembler::{
    finished_part, held_after, law_cuts_do_not_matter, text_of_pieces, unfinished_part,
    TextAssembler,
};
use crate::decoder::JsonArrayStream;
use crate::grammar::{
    array_text, is_blank, is_filler, is_object_text, strings_end_plainly,
};
use crate::laws::{law_array_of_objects, lemma_concat};
use crate::model::{initial_state, objects_of, state_after, StreamState};
use crate::text::lossy_text;

verus! {

/// What a session remembers between two events.
pub struct SessionState {
    /// The bytes of an unfinished character, held back from the last read.
    pub pending: Seq<u8>,
    /// The state of the decoder.
    pub decoder: StreamState,
    /// The number of records decoded so far.
    pub processed: nat,
}

/// The state of a session before the first read.
pub open spec fn fresh_session() -> SessionState {
    SessionState { pending: Seq::empty(), decoder: initial_state(), processed: 0 }
}

/// The text that a session hands to its decoder when `bytes` are read in
/// state `s`.
pub open spec fn text_read(s: SessionState, bytes: Seq<u8>) -> Seq<char> {
    lossy_text(finished_part(s.pending + bytes))
}

/// The state of a session after `bytes`, not empty, are read in state `s`.
pub open spec fn after_read(s: SessionState, bytes: Seq<u8>) -> SessionState {
    SessionState {
        pending: unfinished_part(s.pending + bytes),
        decoder: state_after(s.decoder, text_read(s, bytes)),
        processed: s.processed,
    }
}

/// The state of a session after the reads `pieces`, in order, from state
/// `s`.
pub open spec fn after_reads(s: SessionState, pieces: Seq<Seq<u8>>) -> SessionState
    decreases pieces.len(),
{
    if pieces.len() == 0 {
        s
    } else {
        after_read(after_reads(s, pieces.drop_last()), pieces.last())
    }
}

/// The objects handed out, all in all, over the reads `pieces` from state
/// `s`.
pub open spec fn objects_of_reads(s: SessionState, pieces: Seq<Seq<u8>>) -> Seq<Seq<char>>
    decreases pieces.len(),
{
    if pieces.len() == 0 {
        Seq::empty()
    } else {
        let before = after_reads(s, pieces.drop_last());
        objects_of_reads(s, pieces.drop_last()) + objects_of(
            before.decoder,
            text_read(before, pieces.last()),
        )
    }
}

/// The state of a session after the outcome of decoding one record is
/// reported in state `s`: a record that decoded is counted, and nothing else
/// changes.
pub open spec fn after_record(s: SessionState, decoded: bool) -> SessionState {
    SessionState {
        processed: if decoded {
            s.processed + 1
        } else {
            s.processed
        },
        ..s
    }
}

/// The state of a session after the outcomes of decoding some records are
/// reported, in order, from state `s`.
pub open spec fn after_records(s: SessionState, outcomes: Seq<bool>) -> SessionState
    decreases outcomes.len(),
{
    if outcomes.len() == 0 {
        s
    } else {
        after_record(after_records(s, outcomes.drop_last()), outcomes.last())
    }
}

/// The number of records that decoded among `outcomes`.
pub open spec fn successes(outcomes: Seq<bool>) -> nat
    decreases outcomes.len(),
{
    if outcomes.len() == 0 {
        0
    } else {
        successes(outcomes.drop_last()) + if outcomes.last() {
            1nat
        } else {
            0nat
        }
    }
}

/// Whether a stream that ends in state `s` was cut short: part of an
/// object, or of a character, is left over.
pub open spec fn cut_short(s: SessionState) -> bool {
    s.decoder.buffer.len() > 0 || s.pending.len() > 0
}

/// How a stream ended.
#[derive(Clone, Copy, Debug, PartialEq, Eq)]
pub struct Summary {
    /// The number of records that were decoded.
    pub processed: u64,
    /// Whether the stream was cut short. What was left over is dropped.
    pub truncated: bool,
}

/// What the caller does next.
#[derive(Debug)]
pub enum Step {
    /// Decode these objects, in this order, report the outcome of each with
    /// [`Session::on_record`], then read again.
    Decode(Vec<String>),
    /// Stop reading: the stream has ended.
    Finished(Summary),
}

/// The decisions of a run that reads a stream piece by piece, decodes the
/// objects of its array as they complete and counts those that decode. The
/// caller reads and decodes; the session says what each event leads to.
pub struct Session {
    assembler: TextAssembler,
    decoder: JsonArrayStream,
    processed: u64,
}

impl View for Session {
    type V = SessionState;

    closed spec fn view(&self) -> SessionState {
        SessionState {
            pending: self.assembler@,
            decoder: self.decoder@,
            processed: self.processed as nat,
        }
    }
}

impl Session {
    /// A session before the first read.
    pub fn new() -> (session: Self)
        ensures
            session@ == fresh_session(),
    {
        Session { assembler: TextAssembler::new(), decoder: JsonArrayStream::new(), processed: 0 }
    }

    /// The number of records decoded so far.
    pub fn processed(&self) -> (count: u64)
        ensures
            count == self@.processed,
    {
        self.processed
    }

    /// A read has returned `bytes`. No bytes mean that the stream has
    /// ended: the session is left as it is and the summary says how the
    /// stream ended. Any other read is decoded to text and fed to the
    /// decoder, and the objects that it completes are handed out.
    pub fn on_read(&mut self, bytes: &[u8]) -> (step: Step)
        ensures
            bytes@.len() == 0 ==> final(self)@ == old(self)@ && step == Step::Finished(
                Summary {
                    processed: old(self)@.processed as u64,
                    truncated: cut_short(old(self)@),
                },
            ),
            bytes@.len() > 0 ==> final(self)@ == after_read(old(self)@, bytes@) && (
            step matches Step::Decode(objects) && objects.deep_view() == objects_of(
                old(self)@.decoder,
                text_read(old(self)@, bytes@),
            )),
    {
        if bytes.len() == 0 {
            let truncated = self.decoder.has_partial() || self.assembler.has_pending();
            Step::Finished(Summary { processed: self.processed, truncated })
        } else {
            let text = self.assembler.push(bytes);
            let objects = self.decoder.process_chunk(text.as_str());
            Step::Decode(objects)
        }
    }

    /// An object handed out by [`Session::on_read`] has been through the
    /// record decoder. One that decoded is counted; one that did not is
    /// passed over, and the run goes on.
    pub fn on_record(&mut self, decoded: bool)
        requires
            decoded ==> old(self)@.processed < u64::MAX,
        ensures
            final(self)@ == after_record(old(self)@, decoded),
    {
        if decoded {
            self.processed = self.processed + 1;
        }
    }
}

/// A record that fails to decode costs nothing but itself: whatever the
/// outcomes and their order, the count moves by the number of records that
/// decoded, and the rest of the session is untouched.
pub proof fn law_failures_are_passed_over(s: SessionState, outcomes: Seq<bool>)
    ensures
        after_records(s, outcomes) == (SessionState {
            processed: s.processed + successes(outcomes),
            ..s
        }),
    decreases outcomes.len(),
{
    if outcomes.len() > 0 {
        law_failures_are_passed_over(s, outcomes.drop_last());
    }
}

/// Over any reads, a session holds back what its assembler would, and its
/// decoder has consumed the text that the assembler has given out.
proof fn lemma_reads(pieces: Seq<Seq<u8>>)
    ensures
        after_reads(fresh_session(), pieces) == (SessionState {
            pending: held_after(Seq::empty(), pieces),
            decoder: state_after(initial_state(), text_of_pieces(Seq::empty(), pieces)),
            processed: 0,
        }),
        objects_of_reads(fresh_session(), pieces) == objects_of(
            initial_state(),
            text_of_pieces(Seq::empty(), pieces),
        ),
    decreases pieces.len(),
{
    if pieces.len() > 0 {
        let front = pieces.drop_last();
        lemma_reads(front);
        lemma_concat(
            initial_state(),
            text_of_pieces(Seq::empty(), front),
            text_read(after_reads(fresh_session(), front), pieces.last()),
        );
    }
}

/// How the reads cut a stream of valid UTF-8 does not matter: the objects
/// handed out over the reads are those of the text that the stream encodes,
/// and after the last read no byte is held back. Reads of a single byte are
/// as good as one read of the whole stream.
pub proof fn law_read_sizes_do_not_matter(pieces: Seq<Seq<u8>>)
    requires
        valid_utf8(pieces.flatten()),
    ensures
        objects_of_reads(fresh_session(), pieces) == objects_of(
            initial_state(),
            decode_utf8(pieces.flatten()),
        ),
        after_reads(fresh_session(), pieces) == (SessionState {
            pending: Seq::empty(),
            decoder: state_after(initial_state(), decode_utf8(pieces.flatten())),
            processed: 0,
        }),
{
    lemma_reads(pieces);
    law_cuts_do_not_matter(pieces);
}

/// A session that reads the UTF-8 encoding of an array of objects, in
/// reads of any sizes, hands out exactly the objects of the array, in their
/// order, each with the text it has in the stream. Objects with a string
/// that ends with an escaped backslash are left out, as in
/// [`law_array_of_objects`].
pub proof fn law_session_hands_out_the_objects(
    pieces: Seq<Seq<u8>>,
    lead: Seq<char>,
    fillers: Seq<Seq<char>>,
    objects: Seq<Seq<char>>,
    tail: Seq<char>,
)
    requires
        pieces.flatten() == encode_utf8(array_text(lead, fillers, objects, tail)),
        is_blank(lead),
        fillers.len() == objects.len(),
        forall|k: int| 0 <= k < fillers.len() ==> is_filler(#[trigger] fillers[k]),
        forall|k: int|
            0 <= k < objects.len() ==> is_object_text(#[trigger] objects[k])
                && strings_end_plainly(objects[k]),
        is_filler(tail),
    ensures
        objects_of_reads(fresh_session(), pieces) == objects,
        !cut_short(after_reads(fresh_session(), pieces)),
{
    let text = array_text(lead, fillers, objects, tail);
    encode_utf8_valid_utf8(text);
    encode_utf8_decode_utf8(text);
    law_read_sizes_do_not_matter(pieces);
    law_array_of_objects(lead, fillers, objects, tail);
}

} // verus!
