//! Which values come back unchanged when their wire bytes are decoded.

use vstd::prelude::*;
use vstd::utf8::{encode_utf8, is_ascii_chars, is_ascii_chars_encode_utf8};
use crate::resp::data_type::{encode, encode_all, wire_bytes, Frame};
use crate::resp::parser::{
    crlf_at, decode_elems, decode_frame, decode_length, digits_end, line_end, terminator_at,
    ProtocolError,
};
use crate::resp::serializer::{bulk_text, crlf, null_bulk, simple_text};
use crate::resp::text::{decimal, decimal_value, is_digit, lower_byte, lower_text};

verus! {

/// A character that decoding hands back as it was: ASCII, and no upper-case
/// letter.
pub open spec fn plain_char(c: char) -> bool {
    c as int <= 127 && !(65 <= c as int <= 90)
}

/// Text that is not empty and holds plain characters only.
pub open spec fn plain_text(text: Seq<char>) -> bool {
    text.len() > 0 && forall|i: int| 0 <= i < text.len() ==> plain_char(#[trigger] text[i])
}

/// Whether a line terminator starts at `i` in `text`.
pub open spec fn terminator_in(text: Seq<char>, i: int) -> bool {
    0 <= i && i + 1 < text.len() && text[i] == '\r' && text[i + 1] == '\n'
}

/// Whether `text` holds no line terminator.
pub open spec fn one_line(text: Seq<char>) -> bool {
    forall|i: int| !#[trigger] terminator_in(text, i)
}

/// The values that survive the wire: every text is plain, a simple string
/// is one line, and every length fits a machine word (as it does in every
/// value that exists at run time).
pub open spec fn survives(frame: Frame) -> bool
    decreases frame,
{
    match frame {
        Frame::Simple(text) => plain_text(text) && one_line(text),
        Frame::Bulk(text) => plain_text(text) && text.len() <= usize::MAX,
        Frame::Array(items) => items.len() <= usize::MAX && forall|i: int|
            0 <= i < items.len() ==> survives(#[trigger] items[i]),
    }
}

/// The bytes of ASCII text: one byte for each character.
pub open spec fn ascii(text: Seq<char>) -> Seq<u8> {
    Seq::new(text.len(), |i: int| text[i] as u8)
}

/// Whether the bytes `part` stand in `bytes` from `pos` on.
pub open spec fn holds_at(bytes: Seq<u8>, pos: int, part: Seq<u8>) -> bool {
    0 <= pos && pos + part.len() <= bytes.len() && forall|i: int|
        0 <= i < part.len() ==> bytes[pos + i] == #[trigger] part[i]
}

proof fn lemma_holds_at_split(bytes: Seq<u8>, pos: int, first: Seq<u8>, second: Seq<u8>)
    requires
        holds_at(bytes, pos, first + second),
    ensures
        holds_at(bytes, pos, first),
        holds_at(bytes, pos + first.len(), second),
{
    let whole = first + second;
    assert forall|i: int| 0 <= i < first.len() implies bytes[pos + i] == #[trigger] first[i] by {
        assert(whole[i] == first[i]);
    }
    assert forall|i: int| 0 <= i < second.len() implies bytes[pos + first.len() + i]
        == #[trigger] second[i] by {
        assert(whole[first.len() + i] == second[i]);
    }
}

proof fn lemma_ascii_concat(first: Seq<char>, second: Seq<char>)
    ensures
        ascii(first + second) == ascii(first) + ascii(second),
{
}

/// A numeral is made of digits, has at least one, and denotes its number.
pub proof fn lemma_decimal(n: nat)
    ensures
        decimal(n).len() >= 1,
        forall|i: int| 0 <= i < decimal(n).len() ==> is_digit(#[trigger] ascii(decimal(n))[i]),
        forall|i: int| 0 <= i < decimal(n).len() ==> 48 <= (#[trigger] decimal(n)[i]) as int <= 57,
        decimal_value(ascii(decimal(n))) == n,
    decreases n,
{
    if n < 10 {
        assert(ascii(decimal(n)).drop_last() =~= Seq::<u8>::empty());
        assert(decimal_value(Seq::<u8>::empty()) == 0);
    } else {
        lemma_decimal(n / 10);
        assert(ascii(decimal(n)).drop_last() =~= ascii(decimal(n / 10)));
    }
}

proof fn lemma_digit_run(bytes: Seq<u8>, pos: int, count: nat)
    requires
        0 <= pos,
        pos + count <= bytes.len(),
        forall|i: int| pos <= i < pos + count ==> is_digit(#[trigger] bytes[i]),
        pos + count < bytes.len() ==> !is_digit(bytes[pos + count]),
    ensures
        digits_end(bytes, pos) == pos + count,
    decreases count,
{
    if count > 0 {
        lemma_digit_run(bytes, pos + 1, (count - 1) as nat);
    }
}

proof fn lemma_line_ends_at(bytes: Seq<u8>, pos: int, count: nat)
    requires
        0 <= pos,
        forall|i: int| pos <= i < pos + count ==> !#[trigger] crlf_at(bytes, i),
        crlf_at(bytes, pos + count),
    ensures
        line_end(bytes, pos) == pos + count,
    decreases count,
{
    if count > 0 {
        lemma_line_ends_at(bytes, pos + 1, (count - 1) as nat);
    }
}

proof fn lemma_length_line(bytes: Seq<u8>, pos: int, n: nat)
    requires
        n <= usize::MAX,
        holds_at(bytes, pos, ascii(decimal(n) + crlf())),
    ensures
        decode_length(bytes, pos) == Ok::<(usize, int), ProtocolError>(
            (n as usize, pos + decimal(n).len() + 2),
        ),
{
    let digits = ascii(decimal(n));
    let count = digits.len();
    lemma_decimal(n);
    lemma_ascii_concat(decimal(n), crlf());
    lemma_holds_at_split(bytes, pos, digits, ascii(crlf()));
    assert(ascii(crlf())[0] == 13 && ascii(crlf())[1] == 10);
    assert forall|i: int| pos <= i < pos + count implies is_digit(#[trigger] bytes[i]) by {
        assert(bytes[pos + (i - pos)] == digits[i - pos]);
    }
    lemma_digit_run(bytes, pos, count);
    assert(bytes.subrange(pos, pos + count) =~= digits);
}

proof fn lemma_plain_char(c: char)
    requires
        plain_char(c),
    ensures
        lower_byte(c as u8) as char == c,
{
}

proof fn lemma_plain_text_decodes(bytes: Seq<u8>, pos: int, text: Seq<char>)
    requires
        plain_text(text),
        holds_at(bytes, pos, ascii(text)),
    ensures
        lower_text(bytes.subrange(pos, pos + text.len())) == text,
{
    let part = bytes.subrange(pos, pos + text.len());
    assert forall|i: int| 0 <= i < text.len() implies lower_text(part)[i] == text[i] by {
        assert(bytes[pos + i] == ascii(text)[i]);
        lemma_plain_char(text[i]);
    }
}

proof fn lemma_terminator_stands(bytes: Seq<u8>, pos: int)
    requires
        holds_at(bytes, pos, ascii(crlf())),
    ensures
        crlf_at(bytes, pos),
        terminator_at(bytes, pos) == Ok::<(), ProtocolError>(()),
{
    assert(ascii(crlf())[0] == 13 && ascii(crlf())[1] == 10);
}

proof fn lemma_encode_all_front(items: Seq<Frame>)
    requires
        items.len() > 0,
    ensures
        encode_all(items) == encode(items[0]) + encode_all(items.drop_first()),
    decreases items.len(),
{
    let rest = items.drop_first();
    if items.len() == 1 {
        assert(items.drop_last() =~= Seq::<Frame>::empty());
        assert(rest =~= Seq::<Frame>::empty());
    } else {
        let front = items.drop_last();
        lemma_encode_all_front(front);
        assert(rest.drop_last() =~= front.drop_first());
    }
}

proof fn lemma_ascii_char(c: char)
    requires
        c as int <= 127,
    ensures
        '\0' <= c <= '\u{7f}',
        (c as u8) as int == c as int,
        c as u8 == 13 <==> c == '\r',
        c as u8 == 10 <==> c == '\n',
{
}

proof fn lemma_plain_is_ascii(text: Seq<char>)
    requires
        forall|i: int| 0 <= i < text.len() ==> (#[trigger] text[i]) as int <= 127,
    ensures
        is_ascii_chars(text),
{
    assert forall|i: int| 0 <= i < text.len() implies '\0' <= #[trigger] text[i] <= '\u{7f}' by {
        lemma_ascii_char(text[i]);
    }
}

proof fn lemma_ascii_join(first: Seq<char>, second: Seq<char>)
    requires
        is_ascii_chars(first),
        is_ascii_chars(second),
    ensures
        is_ascii_chars(first + second),
{
}

proof fn lemma_encode_is_ascii(frame: Frame)
    requires
        survives(frame),
    ensures
        is_ascii_chars(encode(frame)),
        encode(frame).len() >= 1,
    decreases frame,
{
    lemma_plain_is_ascii(crlf());
    match frame {
        Frame::Simple(text) => {
            lemma_plain_is_ascii(seq!['+']);
            lemma_plain_is_ascii(text);
            lemma_ascii_join(seq!['+'], text);
            lemma_ascii_join(seq!['+'] + text, crlf());
        },
        Frame::Bulk(text) => {
            let length = decimal(encode_utf8(text).len());
            lemma_decimal(encode_utf8(text).len());
            lemma_plain_is_ascii(seq!['$']);
            lemma_plain_is_ascii(length);
            lemma_plain_is_ascii(text);
            lemma_ascii_join(seq!['$'], length);
            lemma_ascii_join(seq!['$'] + length, crlf());
            lemma_ascii_join(seq!['$'] + length + crlf(), text);
            lemma_ascii_join(seq!['$'] + length + crlf() + text, crlf());
        },
        Frame::Array(items) => {
            let count = decimal(items.len());
            lemma_decimal(items.len());
            lemma_encode_all_is_ascii(items);
            lemma_plain_is_ascii(seq!['*']);
            lemma_plain_is_ascii(count);
            lemma_ascii_join(seq!['*'], count);
            lemma_ascii_join(seq!['*'] + count, crlf());
            lemma_ascii_join(seq!['*'] + count + crlf(), encode_all(items));
        },
    }
}

proof fn lemma_encode_all_is_ascii(items: Seq<Frame>)
    requires
        forall|i: int| 0 <= i < items.len() ==> survives(#[trigger] items[i]),
    ensures
        is_ascii_chars(encode_all(items)),
    decreases items,
{
    if items.len() > 0 {
        lemma_encode_all_is_ascii(items.drop_last());
        lemma_encode_is_ascii(items.last());
        lemma_ascii_join(encode_all(items.drop_last()), encode(items.last()));
    } else {
        lemma_plain_is_ascii(encode_all(items));
    }
}

proof fn lemma_simple_decodes_back(bytes: Seq<u8>, pos: int, text: Seq<char>)
    requires
        plain_text(text),
        one_line(text),
        holds_at(bytes, pos, ascii(simple_text(text))),
    ensures
        decode_frame(bytes, pos) == Ok::<(Frame, int), ProtocolError>(
            (Frame::Simple(text), pos + simple_text(text).len()),
        ),
{
    let count = text.len();
    let start = pos + 1;
    assert(ascii(simple_text(text)) =~= ascii(seq!['+']) + (ascii(text) + ascii(crlf())));
    lemma_holds_at_split(bytes, pos, ascii(seq!['+']), ascii(text) + ascii(crlf()));
    lemma_holds_at_split(bytes, start, ascii(text), ascii(crlf()));
    assert(ascii(seq!['+'])[0] == 43);
    lemma_terminator_stands(bytes, start + count);
    assert forall|i: int| start <= i < start + count implies !#[trigger] crlf_at(bytes, i) by {
        let k = i - start;
        assert(bytes[start + k] == ascii(text)[k]);
        lemma_ascii_char(text[k]);
        if k + 1 < count {
            assert(bytes[start + (k + 1)] == ascii(text)[k + 1]);
            lemma_ascii_char(text[k + 1]);
            assert(!terminator_in(text, k));
        }
    }
    lemma_line_ends_at(bytes, start, count);
    lemma_plain_text_decodes(bytes, start, text);
}

proof fn lemma_bulk_decodes_back(bytes: Seq<u8>, pos: int, text: Seq<char>)
    requires
        plain_text(text),
        text.len() <= usize::MAX,
        holds_at(bytes, pos, ascii(bulk_text(text))),
    ensures
        decode_frame(bytes, pos) == Ok::<(Frame, int), ProtocolError>(
            (Frame::Bulk(text), pos + bulk_text(text).len()),
        ),
{
    let count = text.len();
    lemma_plain_is_ascii(text);
    is_ascii_chars_encode_utf8(text);
    let line = decimal(count) + crlf();
    let start = pos + 1 + line.len();
    assert(ascii(bulk_text(text)) =~= ascii(seq!['$']) + (ascii(line) + (ascii(text) + ascii(
        crlf(),
    ))));
    lemma_holds_at_split(bytes, pos, ascii(seq!['$']), ascii(line) + (ascii(text) + ascii(crlf())));
    lemma_holds_at_split(bytes, pos + 1, ascii(line), ascii(text) + ascii(crlf()));
    lemma_holds_at_split(bytes, start, ascii(text), ascii(crlf()));
    assert(ascii(seq!['$'])[0] == 36);
    lemma_length_line(bytes, pos + 1, count);
    lemma_terminator_stands(bytes, start + count);
    lemma_plain_text_decodes(bytes, start, text);
}

proof fn lemma_decodes_back(bytes: Seq<u8>, pos: int, frame: Frame)
    requires
        survives(frame),
        holds_at(bytes, pos, ascii(encode(frame))),
    ensures
        decode_frame(bytes, pos) == Ok::<(Frame, int), ProtocolError>(
            (frame, pos + encode(frame).len()),
        ),
    decreases frame,
{
    match frame {
        Frame::Simple(text) => {
            lemma_simple_decodes_back(bytes, pos, text);
        },
        Frame::Bulk(text) => {
            lemma_bulk_decodes_back(bytes, pos, text);
        },
        Frame::Array(items) => {
            let line = decimal(items.len()) + crlf();
            let start = pos + 1 + line.len();
            assert(ascii(encode(frame)) =~= ascii(seq!['*']) + (ascii(line) + ascii(
                encode_all(items),
            )));
            lemma_holds_at_split(
                bytes,
                pos,
                ascii(seq!['*']),
                ascii(line) + ascii(encode_all(items)),
            );
            lemma_holds_at_split(bytes, pos + 1, ascii(line), ascii(encode_all(items)));
            assert(ascii(seq!['*'])[0] == 42);
            lemma_length_line(bytes, pos + 1, items.len());
            lemma_elems_decode_back(bytes, start, items, Seq::empty());
        },
    }
}

proof fn lemma_elems_decode_back(bytes: Seq<u8>, pos: int, items: Seq<Frame>, done: Seq<Frame>)
    requires
        forall|i: int| 0 <= i < items.len() ==> survives(#[trigger] items[i]),
        holds_at(bytes, pos, ascii(encode_all(items))),
    ensures
        decode_elems(bytes, pos, items.len(), done) == Ok::<(Seq<Frame>, int), ProtocolError>(
            (done + items, pos + encode_all(items).len()),
        ),
    decreases items,
{
    if items.len() == 0 {
    } else {
        let first = items[0];
        let rest = items.drop_first();
        lemma_encode_all_front(items);
        lemma_ascii_concat(encode(first), encode_all(rest));
        lemma_holds_at_split(bytes, pos, ascii(encode(first)), ascii(encode_all(rest)));
        lemma_encode_is_ascii(first);
        lemma_decodes_back(bytes, pos, first);
        let end = pos + encode(first).len();
        assert forall|i: int| 0 <= i < rest.len() implies survives(#[trigger] rest[i]) by {
        }
        lemma_elems_decode_back(bytes, end, rest, done.push(first));
        assert(done.push(first) + rest =~= done + items);
    }
}

/// Decoding the wire bytes of a value that survives the wire gives the
/// value back and takes up all of the bytes, whatever follows them in the
/// buffer.
pub proof fn law_round_trip(frame: Frame, rest: Seq<u8>)
    requires
        survives(frame),
    ensures
        decode_frame(wire_bytes(frame), 0) == Ok::<(Frame, int), ProtocolError>(
            (frame, wire_bytes(frame).len() as int),
        ),
        decode_frame(wire_bytes(frame) + rest, 0) == Ok::<(Frame, int), ProtocolError>(
            (frame, wire_bytes(frame).len() as int),
        ),
{
    lemma_encode_is_ascii(frame);
    is_ascii_chars_encode_utf8(encode(frame));
    lemma_decodes_back(wire_bytes(frame), 0, frame);
    lemma_decodes_back(wire_bytes(frame) + rest, 0, frame);
}

/// Empty text is sent as the null token, in either framing, and the empty
/// array as a count of zero.
pub proof fn law_empty_values()
    ensures
        encode(Frame::Bulk(Seq::empty())) == null_bulk(),
        encode(Frame::Simple(Seq::empty())) == null_bulk(),
        encode(Frame::Array(Seq::empty())) == seq!['*', '0', '\r', '\n'],
{
}

/// The null token is no bulk string to the decoder: empty text does not
/// come back.
pub proof fn law_null_token_is_refused()
    ensures
        decode_frame(ascii(null_bulk()), 0) == Err::<(Frame, int), ProtocolError>(
            ProtocolError::Malformed,
        ),
{
    let bytes = ascii(null_bulk());
}

} // verus!
