//! The chunked framing of a body: each chunk is its length in hexadecimal,
//! a line end, the data and a line end; a chunk of length zero ends the
//! body. The framing is written by the response writer; what a receiver
//! reads back from it is stated here and proved to be the data.

use vstd::prelude::*;
use vstd::utf8::{encode_utf8, is_ascii_chars, is_ascii_chars_encode_utf8};
use crate::numeral::{hex_upper, hex_value, is_hex_digit, lemma_hex_digits};

verus! {

/// CR LF as bytes.
pub open spec fn line_end() -> Seq<u8> {
    seq![13u8, 10u8]
}

/// One chunk of a chunked body: its length in hexadecimal with capital
/// letters, a line end, the data, a line end. Empty data makes no chunk,
/// since a chunk of length zero would end the body.
pub open spec fn chunk(data: Seq<u8>) -> Seq<u8> {
    if data.len() == 0 {
        Seq::empty()
    } else {
        encode_utf8(hex_upper(data.len())) + line_end() + data + line_end()
    }
}

/// The chunk of length zero that ends a chunked body.
pub open spec fn last_chunk() -> Seq<u8> {
    seq![48u8, 13u8, 10u8, 13u8, 10u8]
}

/// The chunks of the parts, one after the other.
pub open spec fn chunks(parts: Seq<Seq<u8>>) -> Seq<u8>
    decreases parts.len(),
{
    if parts.len() == 0 {
        Seq::empty()
    } else {
        chunks(parts.drop_last()) + chunk(parts.last())
    }
}

/// The parts, one after the other.
pub open spec fn flatten(parts: Seq<Seq<u8>>) -> Seq<u8>
    decreases parts.len(),
{
    if parts.len() == 0 {
        Seq::empty()
    } else {
        flatten(parts.drop_last()) + parts.last()
    }
}

/// The position of the first line end at or after `from`.
pub open spec fn find_line_end(bytes: Seq<u8>, from: int) -> Option<int>
    decreases bytes.len() - from + 1,
{
    if from < 0 || from + 2 > bytes.len() {
        None
    } else if bytes[from] == 13 && bytes[from + 1] == 10 {
        Some(from)
    } else {
        find_line_end(bytes, from + 1)
    }
}

/// The bytes as characters, one for one.
pub open spec fn as_chars(bytes: Seq<u8>) -> Seq<char> {
    Seq::new(bytes.len(), |i: int| bytes[i] as char)
}

/// Whether a text writes the size of a chunk: one or more hexadecimal
/// digits.
pub open spec fn is_size(text: Seq<char>) -> bool {
    text.len() > 0 && forall|i: int| 0 <= i < text.len() ==> is_hex_digit(#[trigger] text[i])
}

/// The data that a receiver reads from a chunked body: it reads a size
/// line, that many bytes and a line end, again and again, until a size of
/// zero and an empty line end the body. Nothing where the bytes are no
/// chunked body.
pub open spec fn dechunk(stream: Seq<u8>) -> Option<Seq<u8>>
    decreases stream.len(),
{
    match find_line_end(stream, 0) {
        None => None,
        Some(i) => {
            let size = as_chars(stream.take(i));
            let n = hex_value(size) as int;
            let start = i + 2;
            let next = start + n + 2;
            if i < 0 || !is_size(size) {
                None
            } else if n == 0 {
                if stream.skip(start) == line_end() {
                    Some(Seq::empty())
                } else {
                    None
                }
            } else if next <= stream.len() && stream.subrange(start + n, next) == line_end() {
                match dechunk(stream.skip(next)) {
                    Some(rest) => Some(stream.subrange(start, start + n) + rest),
                    None => None,
                }
            } else {
                None
            }
        },
    }
}

/// The chunks of some parts are the chunk of the first part and the chunks
/// of the others; the same holds of the parts themselves.
pub proof fn lemma_chunks_from_the_front(parts: Seq<Seq<u8>>)
    requires
        parts.len() > 0,
    ensures
        chunks(parts) == chunk(parts.first()) + chunks(parts.drop_first()),
        flatten(parts) == parts.first() + flatten(parts.drop_first()),
    decreases parts.len(),
{
    if parts.len() == 1 {
        assert(parts.drop_last() =~= Seq::<Seq<u8>>::empty());
        assert(parts.drop_first() =~= Seq::<Seq<u8>>::empty());
        assert(chunks(parts) =~= chunk(parts.first()) + chunks(parts.drop_first()));
    } else {
        let front = parts.drop_last();
        lemma_chunks_from_the_front(front);
        assert(front.first() == parts.first());
        assert(front.drop_first() =~= parts.drop_first().drop_last());
        assert(parts.drop_first().last() == parts.last());
        assert(flatten(parts) =~= parts.first() + flatten(parts.drop_first()));
    }
}

/// The first line end is where a CR LF stands with no CR before it.
pub proof fn lemma_find_line_end(bytes: Seq<u8>, from: int, at: int)
    requires
        0 <= from <= at,
        at + 2 <= bytes.len(),
        bytes[at] == 13,
        bytes[at + 1] == 10,
        forall|j: int| from <= j < at ==> #[trigger] bytes[j] != 13,
    ensures
        find_line_end(bytes, from) == Some(at),
    decreases at - from,
{
    if from < at {
        lemma_find_line_end(bytes, from + 1, at);
    }
}

/// The size line of a chunk is read back as the size: hexadecimal digits
/// are ASCII, so each is one byte, and none of them is a carriage return.
pub proof fn lemma_size_line(n: nat)
    ensures
        as_chars(encode_utf8(hex_upper(n))) == hex_upper(n),
        encode_utf8(hex_upper(n)).len() == hex_upper(n).len(),
        forall|j: int|
            0 <= j < encode_utf8(hex_upper(n)).len() ==> #[trigger] encode_utf8(hex_upper(n))[j]
                != 13,
{
    let text = hex_upper(n);
    lemma_hex_digits(n);
    assert(is_ascii_chars(text)) by {
        assert forall|i: int| 0 <= i < text.len() implies '\0' <= #[trigger] text[i]
            <= '\u{7f}' by {
            assert(is_hex_digit(text[i]));
        }
    }
    is_ascii_chars_encode_utf8(text);
    let bytes = encode_utf8(text);
    assert forall|j: int| 0 <= j < bytes.len() implies #[trigger] bytes[j] != 13 by {
        assert(is_hex_digit(text[j]));
    }
    assert forall|j: int| 0 <= j < bytes.len() implies as_chars(bytes)[j] == text[j] by {
        assert(bytes[j] == text[j] as u8);
    }
    assert(as_chars(bytes) =~= text);
}

/// What is written in chunks is read back whole: the chunks of some parts,
/// followed by the chunk of length zero, hold the parts one after the
/// other.
pub proof fn lemma_chunked_round_trip(parts: Seq<Seq<u8>>)
    ensures
        dechunk(chunks(parts) + last_chunk()) == Some(flatten(parts)),
    decreases parts.len(),
{
    let stream = chunks(parts) + last_chunk();
    if parts.len() == 0 {
        assert(stream =~= last_chunk());
        lemma_find_line_end(stream, 0, 1);
        let size = as_chars(stream.take(1));
        assert(size =~= seq!['0']);
        assert(hex_value(size.drop_last()) == 0);
        assert(hex_value(size) == 0);
        assert(stream.skip(3) =~= line_end());
    } else {
        let first = parts.first();
        let others = parts.drop_first();
        let tail = chunks(others) + last_chunk();
        lemma_chunks_from_the_front(parts);
        lemma_chunked_round_trip(others);
        assert(stream =~= chunk(first) + tail);
        if first.len() == 0 {
            assert(stream =~= tail);
        } else {
            let n = first.len() as int;
            let size = encode_utf8(hex_upper(first.len()));
            let i = size.len() as int;
            lemma_size_line(first.len());
            lemma_hex_digits(first.len());
            assert forall|j: int| 0 <= j < i implies #[trigger] stream[j] != 13 by {
                assert(stream[j] == size[j]);
            }
            lemma_find_line_end(stream, 0, i);
            assert(stream.take(i) =~= size);
            assert(stream.subrange(i + 2 + n, i + 2 + n + 2) =~= line_end());
            assert(stream.skip(i + 2 + n + 2) =~= tail);
        }
    }
}

} // verus!
