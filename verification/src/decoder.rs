//! The decoder itself.
use vstd::prelude::*;
use crate::model::{completes, initial_state, objects_of, state_after, step, StreamState};
use crate::text::{chars_fit_usize, is_whitespace, push_char};

verus! {

/// The working state of a decoder.
struct Scan {
    depth: usize,
    buffer: String,
    in_string: bool,
    escape_next: bool,
    started: bool,
}

impl Scan {
    spec fn model(self) -> StreamState {
        StreamState {
            depth: self.depth as nat,
            buffer: self.buffer@,
            in_string: self.in_string,
            escape_next: self.escape_next,
            started: self.started,
        }
    }

    /// Every open brace is in the buffer, so the depth never outgrows the
    /// length of the buffer.
    spec fn bounded(self) -> bool {
        self.depth <= self.buffer@.len()
    }

    fn new() -> (scan: Self)
        ensures
            scan.model() == initial_state(),
            scan.bounded(),
    {
        Scan {
            depth: 0,
            buffer: String::new(),
            in_string: false,
            escape_next: false,
            started: false,
        }
    }

    /// Consumes one character; returns the object that it completes, if any.
    fn consume(&mut self, c: char) -> (done: Option<String>)
        requires
            old(self).bounded(),
        ensures
            final(self).bounded(),
            final(self).model() == step(old(self).model(), c),
            match done {
                Some(text) => completes(old(self).model(), c) && text@ == old(self).buffer@.push(c),
                None => !completes(old(self).model(), c),
            },
    {
        if !self.started && !self.in_string && self.depth == 0 && is_whitespace(c) {
            return None;
        }
        if !self.started && c == '[' {
            self.started = true;
            return None;
        }
        if c == '{' && !self.in_string {
            push_char(&mut self.buffer, c);
            chars_fit_usize(&self.buffer);
            self.depth += 1;
            None
        } else if c == '}' && !self.in_string {
            if self.depth == 0 {
                return None;
            }
            self.depth -= 1;
            push_char(&mut self.buffer, c);
            if self.depth == 0 {
                let mut text = String::new();
                std::mem::swap(&mut text, &mut self.buffer);
                Some(text)
            } else {
                None
            }
        } else if c == '"' && !self.escape_next {
            self.in_string = !self.in_string;
            push_char(&mut self.buffer, c);
            None
        } else if c == '\\' && self.in_string {
            self.escape_next = true;
            push_char(&mut self.buffer, c);
            None
        } else {
            self.escape_next = false;
            if self.depth > 0 {
                push_char(&mut self.buffer, c);
            }
            None
        }
    }
}

/// Incremental decoder of a stream that holds one JSON array of objects.
///
/// The stream may arrive in chunks cut at any character: the decoder carries
/// what it needs from one chunk to the next, and hands out the text of each
/// object of the array as soon as its closing brace has arrived.
pub struct JsonArrayStream {
    scan: Scan,
}

impl View for JsonArrayStream {
    type V = StreamState;

    closed spec fn view(&self) -> StreamState {
        self.scan.model()
    }
}

impl JsonArrayStream {
    #[verifier::type_invariant]
    spec fn bounded(self) -> bool {
        self.scan.bounded()
    }

    /// A decoder at the start of a stream.
    pub fn new() -> (decoder: Self)
        ensures
            decoder@ == initial_state(),
    {
        JsonArrayStream { scan: Scan::new() }
    }

    /// Whether characters of an object that is not yet complete are held.
    pub fn has_partial(&self) -> (b: bool)
        ensures
            b == (self@.buffer.len() > 0),
    {
        !self.scan.buffer.as_str().is_empty()
    }

    /// Consumes the next chunk of the stream and returns the objects that it
    /// completes, in the order of their closing braces. The chunk may be
    /// empty, and may end anywhere: inside an object, a string or an escape
    /// sequence. The text is not checked: a closing brace that closes nothing
    /// is dropped, and an object that is never closed is never handed out.
    pub fn process_chunk(&mut self, chunk: &str) -> (objects: Vec<String>)
        ensures
            final(self)@ == state_after(old(self)@, chunk@),
            objects.deep_view() == objects_of(old(self)@, chunk@),
    {
        proof {
            use_type_invariant(&*self);
        }
        let mut scan = Scan::new();
        std::mem::swap(&mut scan, &mut self.scan);
        let mut objects: Vec<String> = Vec::new();
        for c in chars: chunk.chars()
            invariant
                scan.bounded(),
                chars.seq() == chunk@,
                scan.model() == state_after(old(self)@, chunk@.take(chars.index() as int)),
                objects.deep_view() == objects_of(old(self)@, chunk@.take(chars.index() as int)),
        {
            let ghost earlier = objects.deep_view();
            let ghost before = scan.model();
            let ghost read = chunk@.take(chars.index() as int);
            let done = scan.consume(c);
            if let Some(text) = done {
                objects.push(text);
                assert(objects.deep_view() =~= earlier.push(before.buffer.push(c)));
            }
            assert(chunk@.take(chars.index() + 1).drop_last() =~= read);
        }
        assert(chunk@.take(chunk@.len() as int) =~= chunk@);
        self.scan = scan;
        objects
    }
}

} // verus!
