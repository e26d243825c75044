//! Text from the bytes of a stream whose pieces may end inside a character.
use vstd::prelude::*;
use vstd::utf8::{
    decode_utf8, is_char_boundary, is_char_boundary_iff_not_is_continuation_byte,
    is_char_boundary_start_end_of_seq, is_continuation_byte, length_of_first_scalar,
    pop_first_scalar, valid_utf8, valid_utf8_split, decode_utf8_split,
};
use crate::text::{decode_lossy, lossy_text};

verus! {

/// The number of bytes that the encoding of a character takes, as its first
/// byte announces it. A byte that opens no encoding counts for itself.
pub open spec fn announced_width(first: u8) -> int {
    if 0xc0 <= first <= 0xdf {
        2
    } else if 0xe0 <= first <= 0xef {
        3
    } else if 0xf0 <= first <= 0xf7 {
        4
    } else {
        1
    }
}

/// The length of the character left unfinished at the end of `bytes`: the
/// bytes from the last one that opens an encoding, where that encoding
/// announces more bytes than have arrived. It is 0 where the end of `bytes`
/// cuts through no character. Only the byte that opens the encoding is
/// looked at: whether the bytes after it fit it is for the decoding to say,
/// once they have all arrived.
pub open spec fn unfinished_len(bytes: Seq<u8>) -> int {
    let n = bytes.len() as int;
    if n >= 1 && !is_continuation_byte(bytes[n - 1]) {
        if announced_width(bytes[n - 1]) > 1 {
            1
        } else {
            0
        }
    } else if n >= 2 && !is_continuation_byte(bytes[n - 2]) {
        if announced_width(bytes[n - 2]) > 2 {
            2
        } else {
            0
        }
    } else if n >= 3 && !is_continuation_byte(bytes[n - 3]) {
        if announced_width(bytes[n - 3]) > 3 {
            3
        } else {
            0
        }
    } else {
        0
    }
}

/// The bytes of `bytes` in front of its unfinished character.
pub open spec fn finished_part(bytes: Seq<u8>) -> Seq<u8> {
    bytes.subrange(0, bytes.len() - unfinished_len(bytes))
}

/// The unfinished character at the end of `bytes`.
pub open spec fn unfinished_part(bytes: Seq<u8>) -> Seq<u8> {
    bytes.subrange(bytes.len() - unfinished_len(bytes), bytes.len() as int)
}

/// The bytes held back once the pieces have been pushed one after another
/// to an assembler that held `held`.
pub open spec fn held_after(held: Seq<u8>, pieces: Seq<Seq<u8>>) -> Seq<u8>
    decreases pieces.len(),
{
    if pieces.len() == 0 {
        held
    } else {
        unfinished_part(held_after(held, pieces.drop_last()) + pieces.last())
    }
}

/// The text given out, all in all, while the pieces are pushed one after
/// another to an assembler that held `held`.
pub open spec fn text_of_pieces(held: Seq<u8>, pieces: Seq<Seq<u8>>) -> Seq<char>
    decreases pieces.len(),
{
    if pieces.len() == 0 {
        Seq::empty()
    } else {
        text_of_pieces(held, pieces.drop_last()) + lossy_text(
            finished_part(held_after(held, pieces.drop_last()) + pieces.last()),
        )
    }
}

fn width_of(first: u8) -> (width: usize)
    ensures
        width == announced_width(first),
{
    if 0xc0 <= first && first <= 0xdf {
        2
    } else if 0xe0 <= first && first <= 0xef {
        3
    } else if 0xf0 <= first && first <= 0xf7 {
        4
    } else {
        1
    }
}

fn is_continuation(byte: u8) -> (b: bool)
    ensures
        b == is_continuation_byte(byte),
{
    0x80 <= byte && byte <= 0xbf
}

/// Measures the character left unfinished at the end of `bytes`.
pub fn unfinished_tail(bytes: &[u8]) -> (len: usize)
    ensures
        len == unfinished_len(bytes@),
        len <= 3,
        len <= bytes@.len(),
{
    let n = bytes.len();
    let mut k: usize = 1;
    while k <= 3 && k <= n
        invariant
            1 <= k <= 4,
            n == bytes@.len(),
            forall|j: int| 1 <= j < k ==> is_continuation_byte(#[trigger] bytes@[n - j]),
        decreases 4 - k,
    {
        let byte = bytes[n - k];
        if !is_continuation(byte) {
            return if width_of(byte) > k {
                k
            } else {
                0
            };
        }
        k += 1;
    }
    0
}

/// Turns a stream of bytes that arrives in pieces into text, piece by
/// piece. A character whose bytes are cut by the end of a piece is held
/// back until the rest of it arrives, so that no character is spoiled by
/// where the stream happens to be cut.
pub struct TextAssembler {
    pending: Vec<u8>,
}

impl View for TextAssembler {
    type V = Seq<u8>;

    /// The bytes held back.
    closed spec fn view(&self) -> Seq<u8> {
        self.pending@
    }
}

impl TextAssembler {
    /// An assembler that holds nothing back.
    pub fn new() -> (assembler: Self)
        ensures
            assembler@ == Seq::<u8>::empty(),
    {
        TextAssembler { pending: Vec::new() }
    }

    /// Whether bytes of an unfinished character are held back.
    pub fn has_pending(&self) -> (b: bool)
        ensures
            b == (self@.len() > 0),
    {
        self.pending.len() > 0
    }

    /// Takes the next piece of the stream. The bytes held back and the new
    /// ones are decoded up to the last character that is whole, and the
    /// unfinished character after it, if any, is held back in turn: never
    /// more than three bytes.
    pub fn push(&mut self, bytes: &[u8]) -> (text: String)
        ensures
            text@ == lossy_text(finished_part(old(self)@ + bytes@)),
            final(self)@ == unfinished_part(old(self)@ + bytes@),
            final(self)@.len() <= 3,
    {
        let mut data: Vec<u8> = Vec::new();
        std::mem::swap(&mut data, &mut self.pending);
        data.extend_from_slice(bytes);
        assert(data@ =~= old(self)@ + bytes@);
        let held = unfinished_tail(data.as_slice());
        let keep = data.len() - held;
        let rest = data.split_off(keep);
        self.pending = rest;
        decode_lossy(data.as_slice())
    }
}

/// In valid UTF-8 the character that begins at `i` takes the bytes that its
/// first byte announces, and the next character begins right after them.
proof fn lemma_next_boundary(bytes: Seq<u8>, i: int)
    requires
        valid_utf8(bytes),
        is_char_boundary(bytes, i),
        0 <= i < bytes.len(),
    ensures
        !is_continuation_byte(bytes[i]),
        i + announced_width(bytes[i]) <= bytes.len(),
        is_char_boundary(bytes, i + announced_width(bytes[i])),
        forall|j: int| i < j < i + announced_width(bytes[i]) ==> is_continuation_byte(bytes[j]),
    decreases bytes.len(),
{
    let first = length_of_first_scalar(bytes);
    let rest = pop_first_scalar(bytes);
    assert(first == announced_width(bytes[0]));
    if i == 0 {
        assert(is_char_boundary(rest, 0));
    } else {
        assert(is_char_boundary(rest, i - first));
        lemma_next_boundary(rest, i - first);
        assert(rest[i - first] == bytes[i]);
        assert forall|j: int| i < j < i + announced_width(bytes[i]) implies is_continuation_byte(
            bytes[j],
        ) by {
            assert(rest[j - first] == bytes[j]);
        }
    }
}

/// In valid UTF-8 every byte belongs to a character: the result is where
/// the character that holds the byte at `i` begins.
proof fn lemma_character_around(bytes: Seq<u8>, i: int) -> (begin: int)
    requires
        valid_utf8(bytes),
        0 <= i < bytes.len(),
    ensures
        0 <= begin <= i < begin + announced_width(bytes[begin]),
        is_char_boundary(bytes, begin),
    decreases bytes.len(),
{
    let first = length_of_first_scalar(bytes);
    let rest = pop_first_scalar(bytes);
    assert(first == announced_width(bytes[0]));
    if i < first {
        0
    } else {
        let inner = lemma_character_around(rest, i - first);
        assert(rest[inner] == bytes[inner + first]);
        assert(is_char_boundary(bytes, inner + first));
        inner + first
    }
}

/// In valid UTF-8, cutting the unfinished character off a stretch that
/// begins between two characters leaves a stretch that ends between two
/// characters. At the end of the bytes no character is unfinished.
proof fn lemma_cut_on_boundary(bytes: Seq<u8>, from: int, to: int)
    requires
        valid_utf8(bytes),
        0 <= from <= to <= bytes.len(),
        is_char_boundary(bytes, from),
    ensures
        0 <= unfinished_len(bytes.subrange(from, to)) <= to - from,
        is_char_boundary(bytes, to - unfinished_len(bytes.subrange(from, to))),
        to == bytes.len() ==> unfinished_len(bytes.subrange(from, to)) == 0,
{
    let data = bytes.subrange(from, to);
    let n = to - from;
    if n > 0 {
        let begin = lemma_character_around(bytes, to - 1);
        lemma_next_boundary(bytes, begin);
        if begin < from {
            is_char_boundary_iff_not_is_continuation_byte(bytes, from);
        }
        assert(begin >= from);
        assert(data[n - 1] == bytes[to - 1]);
        if to - begin >= 2 {
            assert(data[n - 2] == bytes[to - 2]);
        }
        if to - begin >= 3 {
            assert(data[n - 3] == bytes[to - 3]);
        }
    }
}

/// A place between two characters of valid UTF-8 is still between two
/// characters when the bytes are cut at a later such place.
proof fn lemma_boundary_in_prefix(bytes: Seq<u8>, at: int, end: int)
    requires
        valid_utf8(bytes),
        0 <= at <= end <= bytes.len(),
        is_char_boundary(bytes, at),
        is_char_boundary(bytes, end),
    ensures
        valid_utf8(bytes.subrange(0, end)),
        is_char_boundary(bytes.subrange(0, end), at),
{
    let prefix = bytes.subrange(0, end);
    valid_utf8_split(bytes, end);
    if at == end {
        is_char_boundary_start_end_of_seq(prefix);
    } else {
        is_char_boundary_iff_not_is_continuation_byte(bytes, at);
        is_char_boundary_iff_not_is_continuation_byte(prefix, at);
    }
}

/// What one push does to a stretch of valid UTF-8 that begins between two
/// characters: the part decoded ends between two characters, it is valid by
/// itself, and its text follows the text in front of it.
proof fn lemma_push_on_valid_utf8(stream: Seq<u8>, from: int, to: int)
    requires
        valid_utf8(stream),
        0 <= from <= to <= stream.len(),
        is_char_boundary(stream, from),
    ensures
        0 <= unfinished_len(stream.subrange(from, to)) <= to - from,
        to == stream.len() ==> unfinished_len(stream.subrange(from, to)) == 0,
        is_char_boundary(stream, to - unfinished_len(stream.subrange(from, to))),
        finished_part(stream.subrange(from, to)) == stream.subrange(
            from,
            to - unfinished_len(stream.subrange(from, to)),
        ),
        unfinished_part(stream.subrange(from, to)) == stream.subrange(
            to - unfinished_len(stream.subrange(from, to)),
            to,
        ),
        valid_utf8(finished_part(stream.subrange(from, to))),
        decode_utf8(stream.subrange(0, to - unfinished_len(stream.subrange(from, to))))
            == decode_utf8(stream.subrange(0, from)) + decode_utf8(
            finished_part(stream.subrange(from, to)),
        ),
{
    let data = stream.subrange(from, to);
    lemma_cut_on_boundary(stream, from, to);
    let cut = to - unfinished_len(data);
    assert(finished_part(data) =~= stream.subrange(from, cut));
    assert(unfinished_part(data) =~= stream.subrange(cut, to));
    lemma_boundary_in_prefix(stream, from, cut);
    let prefix = stream.subrange(0, cut);
    valid_utf8_split(prefix, from);
    decode_utf8_split(prefix, from);
    assert(prefix.subrange(0, from) =~= stream.subrange(0, from));
    assert(prefix.subrange(from, prefix.len() as int) =~= stream.subrange(from, cut));
}

/// The last of the pieces that make up the front of a stream, as a stretch
/// of the stream.
proof fn lemma_last_piece(stream: Seq<u8>, pieces: Seq<Seq<u8>>)
    requires
        pieces.len() > 0,
        pieces.flatten().len() <= stream.len(),
        stream.subrange(0, pieces.flatten().len() as int) == pieces.flatten(),
    ensures
        pieces.flatten().len() == pieces.drop_last().flatten().len() + pieces.last().len(),
        stream.subrange(0, pieces.drop_last().flatten().len() as int)
            == pieces.drop_last().flatten(),
        stream.subrange(
            pieces.drop_last().flatten().len() as int,
            pieces.flatten().len() as int,
        ) == pieces.last(),
{
    let front = pieces.drop_last();
    pieces.lemma_flatten_and_flatten_alt_are_equivalent();
    front.lemma_flatten_and_flatten_alt_are_equivalent();
    let arrived = pieces.flatten();
    let earlier = front.flatten();
    assert(arrived =~= earlier + pieces.last());
    let whole = stream.subrange(0, arrived.len() as int);
    assert forall|j: int| 0 <= j < earlier.len() implies stream[j] == earlier[j] by {
        assert(whole[j] == arrived[j]);
    }
    assert forall|j: int| 0 <= j < pieces.last().len() implies stream[earlier.len() + j]
        == pieces.last()[j] by {
        assert(whole[earlier.len() + j] == arrived[earlier.len() + j]);
    }
    assert(stream.subrange(0, earlier.len() as int) =~= earlier);
    assert(stream.subrange(earlier.len() as int, arrived.len() as int) =~= pieces.last());
}

/// While the pieces of valid UTF-8 arrive, the assembler holds back the
/// bytes after some place between two characters, and has given out the
/// text encoded in front of that place.
proof fn lemma_pieces_of_valid_utf8(stream: Seq<u8>, pieces: Seq<Seq<u8>>) -> (cut: int)
    requires
        valid_utf8(stream),
        pieces.flatten().len() <= stream.len(),
        stream.subrange(0, pieces.flatten().len() as int) == pieces.flatten(),
    ensures
        0 <= cut <= pieces.flatten().len(),
        is_char_boundary(stream, cut),
        held_after(Seq::empty(), pieces) == stream.subrange(cut, pieces.flatten().len() as int),
        text_of_pieces(Seq::empty(), pieces) == decode_utf8(stream.subrange(0, cut)),
        pieces.flatten().len() == stream.len() ==> cut == stream.len(),
    decreases pieces.len(),
{
    let none = Seq::<u8>::empty();
    if pieces.len() == 0 {
        is_char_boundary_start_end_of_seq(stream);
        assert(stream.subrange(0, 0) =~= none);
        assert(valid_utf8(none));
        assert(held_after(none, pieces) =~= stream.subrange(0, 0));
        0
    } else {
        let front = pieces.drop_last();
        lemma_last_piece(stream, pieces);
        let from = lemma_pieces_of_valid_utf8(stream, front);
        let mid = front.flatten().len() as int;
        let to = pieces.flatten().len() as int;
        let data = held_after(none, front) + pieces.last();
        assert(data =~= stream.subrange(from, to));
        lemma_push_on_valid_utf8(stream, from, to);
        to - unfinished_len(data)
    }
}

/// Where a stream of valid UTF-8 is cut into pieces does not matter: pushed
/// piece by piece, whatever the cuts, it gives the text that it encodes, and
/// nothing is held back at its end.
pub proof fn law_cuts_do_not_matter(pieces: Seq<Seq<u8>>)
    requires
        valid_utf8(pieces.flatten()),
    ensures
        text_of_pieces(Seq::empty(), pieces) == decode_utf8(pieces.flatten()),
        held_after(Seq::empty(), pieces) == Seq::<u8>::empty(),
{
    let stream = pieces.flatten();
    assert(stream.subrange(0, stream.len() as int) =~= stream);
    let cut = lemma_pieces_of_valid_utf8(stream, pieces);
    assert(stream.subrange(cut, stream.len() as int) =~= Seq::<u8>::empty());
}

} // verus!
