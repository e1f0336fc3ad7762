//! Decoding of protocol values from wire bytes.

use vstd::prelude::*;
use crate::resp::data_type::{DataType, Frame};
use crate::resp::text::{
    append_digit, decimal_value, is_digit, lemma_decimal_value_prefix, lower_text, push_char,
    to_lower,
};

verus! {

/// Why a buffer does not start with a well-formed value.
#[derive(Clone, Copy, Debug, PartialEq, Eq, Structural)]
pub enum ProtocolError {
    /// The leading byte is none of `+`, `$` and `*`.
    UnsupportedFrameType,
    /// The buffer ends before the value does.
    Truncated,
    /// A length or count is not a decimal number that fits a machine word,
    /// or a line terminator is not where the framing puts it.
    Malformed,
}

/// Whether a carriage return and a line feed stand at `i` and `i + 1`.
pub open spec fn crlf_at(bytes: Seq<u8>, i: int) -> bool {
    0 <= i && i + 1 < bytes.len() && bytes[i] == 13 && bytes[i + 1] == 10
}

/// The first position from `pos` on at which a line terminator starts, or
/// the length of `bytes` if there is none.
pub open spec fn line_end(bytes: Seq<u8>, pos: int) -> int
    decreases bytes.len() - pos,
{
    if pos >= bytes.len() {
        bytes.len() as int
    } else if crlf_at(bytes, pos) {
        pos
    } else {
        line_end(bytes, pos + 1)
    }
}

/// The first position from `pos` on that holds no ASCII digit.
pub open spec fn digits_end(bytes: Seq<u8>, pos: int) -> int
    decreases bytes.len() - pos,
{
    if 0 <= pos < bytes.len() && is_digit(bytes[pos]) {
        digits_end(bytes, pos + 1)
    } else {
        pos
    }
}

/// Checks for the line terminator at `i`.
pub open spec fn terminator_at(bytes: Seq<u8>, i: int) -> Result<(), ProtocolError> {
    if i >= bytes.len() {
        Err(ProtocolError::Truncated)
    } else if bytes[i] != 13 {
        Err(ProtocolError::Malformed)
    } else if i + 1 >= bytes.len() {
        Err(ProtocolError::Truncated)
    } else if bytes[i + 1] != 10 {
        Err(ProtocolError::Malformed)
    } else {
        Ok(())
    }
}

/// Reads a length line at `pos`: one or more digits, then the line
/// terminator. Gives the number and the position after the terminator.
pub open spec fn decode_length(bytes: Seq<u8>, pos: int) -> Result<(usize, int), ProtocolError> {
    let end = digits_end(bytes, pos);
    let value = decimal_value(bytes.subrange(pos, end));
    if pos >= bytes.len() {
        Err(ProtocolError::Truncated)
    } else if end <= pos || value > usize::MAX {
        Err(ProtocolError::Malformed)
    } else {
        match terminator_at(bytes, end) {
            Err(e) => Err(e),
            Ok(_) => Ok((value as usize, end + 2)),
        }
    }
}

/// Reads the rest of a simple string whose text starts at `pos`.
pub open spec fn decode_simple(bytes: Seq<u8>, pos: int) -> Result<(Frame, int), ProtocolError> {
    let end = line_end(bytes, pos);
    if end >= bytes.len() {
        Err(ProtocolError::Truncated)
    } else {
        Ok((Frame::Simple(lower_text(bytes.subrange(pos, end))), end + 2))
    }
}

/// Reads the rest of a bulk string whose length line starts at `pos`.
pub open spec fn decode_bulk(bytes: Seq<u8>, pos: int) -> Result<(Frame, int), ProtocolError> {
    match decode_length(bytes, pos) {
        Err(e) => Err(e),
        Ok((n, start)) => if start + n > bytes.len() {
            Err(ProtocolError::Truncated)
        } else {
            match terminator_at(bytes, start + n) {
                Err(e) => Err(e),
                Ok(_) => Ok(
                    (Frame::Bulk(lower_text(bytes.subrange(start, start + n))), start + n + 2),
                ),
            }
        },
    }
}

/// Decodes the value that starts at `pos`: the value and the position after it.
pub open spec fn decode_frame(bytes: Seq<u8>, pos: int) -> Result<(Frame, int), ProtocolError>
    decreases bytes.len() - pos, 0nat,
{
    if !(0 <= pos < bytes.len()) {
        Err(ProtocolError::Truncated)
    } else if bytes[pos] == 43 {
        decode_simple(bytes, pos + 1)
    } else if bytes[pos] == 36 {
        decode_bulk(bytes, pos + 1)
    } else if bytes[pos] == 42 {
        match decode_length(bytes, pos + 1) {
            Err(e) => Err(e),
            Ok((n, start)) => match decode_elems(bytes, start, n as nat, Seq::empty()) {
                Err(e) => Err(e),
                Ok((items, end)) => Ok((Frame::Array(items), end)),
            },
        }
    } else {
        Err(ProtocolError::UnsupportedFrameType)
    }
}

/// Decodes `n` values one after the other from `pos` on and appends them to
/// `done`.
///
/// Every value takes up at least its type byte, so the position always moves
/// forward (`lemma_decode_frame_advances`); the test on `end` only shows that
/// to the termination check.
pub open spec fn decode_elems(bytes: Seq<u8>, pos: int, n: nat, done: Seq<Frame>) -> Result<
    (Seq<Frame>, int),
    ProtocolError,
>
    decreases bytes.len() - pos, n,
{
    if n == 0 {
        Ok((done, pos))
    } else {
        match decode_frame(bytes, pos) {
            Err(e) => Err(e),
            Ok((item, end)) => if pos < end <= bytes.len() {
                decode_elems(bytes, end, (n - 1) as nat, done.push(item))
            } else {
                Err(ProtocolError::Truncated)
            },
        }
    }
}


/// A digit run starts where it is asked for, ends inside the buffer, and
/// holds digits only; what follows it is no digit.
pub proof fn lemma_digits_end(bytes: Seq<u8>, pos: int)
    requires
        0 <= pos <= bytes.len(),
    ensures
        pos <= digits_end(bytes, pos) <= bytes.len(),
        forall|i: int| pos <= i < digits_end(bytes, pos) ==> is_digit(#[trigger] bytes[i]),
        digits_end(bytes, pos) < bytes.len() ==> !is_digit(bytes[digits_end(bytes, pos)]),
    decreases bytes.len() - pos,
{
    if pos < bytes.len() && is_digit(bytes[pos]) {
        lemma_digits_end(bytes, pos + 1);
    }
}

/// The end of a line lies between the start and the end of the buffer, no
/// terminator starts before it, and one starts at it unless it is the end
/// of the buffer.
pub proof fn lemma_line_end(bytes: Seq<u8>, pos: int)
    requires
        0 <= pos <= bytes.len(),
    ensures
        pos <= line_end(bytes, pos) <= bytes.len(),
        forall|i: int| pos <= i < line_end(bytes, pos) ==> !crlf_at(bytes, i),
        line_end(bytes, pos) < bytes.len() ==> crlf_at(bytes, line_end(bytes, pos)),
    decreases bytes.len() - pos,
{
    if pos < bytes.len() && !crlf_at(bytes, pos) {
        lemma_line_end(bytes, pos + 1);
    }
}

/// A decoded value takes up at least one byte and none beyond the buffer.
pub proof fn lemma_decode_frame_advances(bytes: Seq<u8>, pos: int)
    ensures
        decode_frame(bytes, pos) matches Ok((_, end)) ==> 0 <= pos < end <= bytes.len(),
    decreases bytes.len() - pos, 0nat,
{
    if 0 <= pos < bytes.len() {
        lemma_line_end(bytes, pos + 1);
        lemma_digits_end(bytes, pos + 1);
        if bytes[pos] == 42 {
            if let Ok((n, start)) = decode_length(bytes, pos + 1) {
                lemma_decode_elems_advances(bytes, start, n as nat, Seq::empty());
            }
        }
    }
}

/// Decoding a run of values never moves backwards, stays inside the buffer,
/// and adds one value for each that was asked for.
pub proof fn lemma_decode_elems_advances(bytes: Seq<u8>, pos: int, n: nat, done: Seq<Frame>)
    requires
        0 <= pos <= bytes.len(),
    ensures
        decode_elems(bytes, pos, n, done) matches Ok((items, end)) ==> pos <= end <= bytes.len()
            && items.len() == done.len() + n,
    decreases bytes.len() - pos, n,
{
    if n > 0 {
        if let Ok((item, end)) = decode_frame(bytes, pos) {
            if pos < end <= bytes.len() {
                lemma_decode_elems_advances(bytes, end, (n - 1) as nat, done.push(item));
            }
        }
    }
}

proof fn lemma_digits_end_ignores_rest(bytes: Seq<u8>, rest: Seq<u8>, pos: int)
    requires
        0 <= pos,
        digits_end(bytes, pos) < bytes.len(),
    ensures
        digits_end(bytes + rest, pos) == digits_end(bytes, pos),
    decreases bytes.len() - pos,
{
    if pos < bytes.len() && is_digit(bytes[pos]) {
        lemma_digits_end_ignores_rest(bytes, rest, pos + 1);
    }
}

proof fn lemma_line_end_ignores_rest(bytes: Seq<u8>, rest: Seq<u8>, pos: int)
    requires
        0 <= pos,
        line_end(bytes, pos) < bytes.len(),
    ensures
        line_end(bytes + rest, pos) == line_end(bytes, pos),
    decreases bytes.len() - pos,
{
    if pos < bytes.len() && !crlf_at(bytes, pos) {
        lemma_line_end(bytes, pos + 1);
        lemma_line_end_ignores_rest(bytes, rest, pos + 1);
    }
}

proof fn lemma_length_ignores_rest(bytes: Seq<u8>, rest: Seq<u8>, pos: int)
    requires
        0 <= pos,
        decode_length(bytes, pos) is Ok,
    ensures
        decode_length(bytes + rest, pos) == decode_length(bytes, pos),
{
    let end = digits_end(bytes, pos);
    lemma_digits_end(bytes, pos);
    lemma_digits_end_ignores_rest(bytes, rest, pos);
    assert((bytes + rest).subrange(pos, end) =~= bytes.subrange(pos, end));
}

/// Bytes that follow a value in the buffer have no part in how the value
/// decodes: what decodes from a buffer decodes the same from any longer
/// buffer that starts with it.
pub proof fn law_decode_ignores_what_follows(bytes: Seq<u8>, rest: Seq<u8>, pos: int)
    requires
        decode_frame(bytes, pos) is Ok,
    ensures
        decode_frame(bytes + rest, pos) == decode_frame(bytes, pos),
    decreases bytes.len() - pos, 0nat,
{
    let longer = bytes + rest;
    if bytes[pos] == 43 {
        let end = line_end(bytes, pos + 1);
        lemma_line_end(bytes, pos + 1);
        lemma_line_end_ignores_rest(bytes, rest, pos + 1);
        assert(longer.subrange(pos + 1, end) =~= bytes.subrange(pos + 1, end));
    } else if bytes[pos] == 36 {
        lemma_length_ignores_rest(bytes, rest, pos + 1);
        let (n, start) = decode_length(bytes, pos + 1)->Ok_0;
        assert(longer.subrange(start, start + n) =~= bytes.subrange(start, start + n));
    } else {
        lemma_length_ignores_rest(bytes, rest, pos + 1);
        let (n, start) = decode_length(bytes, pos + 1)->Ok_0;
        lemma_elems_ignore_what_follows(bytes, rest, start, n as nat, Seq::empty());
    }
}

proof fn lemma_elems_ignore_what_follows(
    bytes: Seq<u8>,
    rest: Seq<u8>,
    pos: int,
    n: nat,
    done: Seq<Frame>,
)
    requires
        0 <= pos <= bytes.len(),
        decode_elems(bytes, pos, n, done) is Ok,
    ensures
        decode_elems(bytes + rest, pos, n, done) == decode_elems(bytes, pos, n, done),
    decreases bytes.len() - pos, n,
{
    if n > 0 {
        law_decode_ignores_what_follows(bytes, rest, pos);
        let (item, end) = decode_frame(bytes, pos)->Ok_0;
        lemma_elems_ignore_what_follows(bytes, rest, end, (n - 1) as nat, done.push(item));
    }
}

/// A cursor over a buffer of wire bytes.
#[derive(Debug)]
pub struct Parser<'a> {
    data: &'a [u8],
    position: usize,
}

impl<'a> Parser<'a> {
    /// The cursor never leaves the buffer.
    #[verifier::type_invariant]
    spec fn within_buffer(self) -> bool {
        self.position <= self.data@.len() <= usize::MAX
    }

    /// The whole buffer.
    pub closed spec fn input(&self) -> Seq<u8> {
        self.data@
    }

    /// How many bytes of the buffer lie behind the cursor.
    pub closed spec fn cursor(&self) -> int {
        self.position as int
    }

    /// A cursor at the start of `data`.
    pub fn new(data: &'a [u8]) -> (p: Self)
        ensures
            p.input() == data@,
            p.cursor() == 0,
    {
        // Reading the length brings in the fact that it fits a machine word.
        let _ = data.len();
        Parser { data, position: 0 }
    }

    /// How many bytes have been consumed so far.
    pub fn position(&self) -> (n: usize)
        ensures
            n == self.cursor(),
            n <= self.input().len(),
    {
        proof {
            use_type_invariant(self);
        }
        self.position
    }

    /// The byte under the cursor, if the buffer has not ended.
    fn current(&self) -> (b: Option<u8>)
        ensures
            0 <= self.cursor() <= self.input().len(),
            b == if self.cursor() < self.input().len() {
                Some(self.input()[self.cursor()])
            } else {
                None::<u8>
            },
    {
        proof {
            use_type_invariant(self);
        }
        if self.position < self.data.len() {
            Some(self.data[self.position])
        } else {
            None
        }
    }

    /// The byte after the one under the cursor, if there is one.
    fn peek_byte(&self) -> (b: Option<u8>)
        ensures
            b == if self.cursor() + 1 < self.input().len() {
                Some(self.input()[self.cursor() + 1])
            } else {
                None::<u8>
            },
    {
        proof {
            use_type_invariant(self);
        }
        if self.position < self.data.len() && self.position + 1 < self.data.len() {
            Some(self.data[self.position + 1])
        } else {
            None
        }
    }

    /// Moves the cursor over one byte.
    fn next_byte(&mut self)
        requires
            old(self).cursor() < old(self).input().len(),
        ensures
            final(self).input() == old(self).input(),
            final(self).cursor() == old(self).cursor() + 1,
    {
        proof {
            use_type_invariant(&*self);
        }
        self.position += 1;
    }

    /// Whether a line terminator starts under the cursor.
    fn is_cur_crlf(&self) -> (b: bool)
        ensures
            b == crlf_at(self.input(), self.cursor()),
    {
        self.current() == Some(13) && self.peek_byte() == Some(10)
    }

    /// Steps over the line terminator under the cursor.
    fn expect_crlf(&mut self) -> (r: Result<(), ProtocolError>)
        ensures
            final(self).input() == old(self).input(),
            old(self).cursor() <= final(self).cursor(),
            r == terminator_at(old(self).input(), old(self).cursor()),
            r is Ok ==> final(self).cursor() == old(self).cursor() + 2,
    {
        match self.current() {
            None => Err(ProtocolError::Truncated),
            Some(first) => {
                if first != 13 {
                    return Err(ProtocolError::Malformed);
                }
                match self.peek_byte() {
                    None => Err(ProtocolError::Truncated),
                    Some(second) => {
                        if second != 10 {
                            return Err(ProtocolError::Malformed);
                        }
                        self.next_byte();
                        self.next_byte();
                        Ok(())
                    },
                }
            },
        }
    }

    /// Reads a length line: decimal digits, then the line terminator.
    fn read_number(&mut self) -> (r: Result<usize, ProtocolError>)
        ensures
            final(self).input() == old(self).input(),
            old(self).cursor() <= final(self).cursor(),
            match decode_length(old(self).input(), old(self).cursor()) {
                Ok((n, next)) => r == Ok::<usize, ProtocolError>(n) && final(self).cursor() == next,
                Err(e) => r == Err::<usize, ProtocolError>(e),
            },
    {
        let ghost bytes = self.input();
        let ghost start = self.cursor();
        let begin = self.position();
        if self.current().is_none() {
            return Err(ProtocolError::Truncated);
        }
        let mut acc: usize = 0;
        loop
            invariant
                self.input() == bytes,
                bytes == old(self).input(),
                start == old(self).cursor(),
                0 <= start <= self.cursor() <= bytes.len(),
                start < bytes.len(),
                digits_end(bytes, start) == digits_end(bytes, self.cursor()),
                acc == decimal_value(bytes.subrange(start, self.cursor())),
            ensures
                self.input() == bytes,
                start <= self.cursor() <= bytes.len(),
                self.cursor() == digits_end(bytes, start),
                acc == decimal_value(bytes.subrange(start, self.cursor())),
            decreases bytes.len() - self.cursor(),
        {
            match self.current() {
                None => {
                    break;
                },
                Some(b) => {
                    if !(48 <= b && b <= 57) {
                        break;
                    }
                    let ghost here = self.cursor();
                    proof {
                        lemma_digits_end(bytes, here + 1);
                        assert(bytes.subrange(start, here + 1).drop_last() =~= bytes.subrange(
                            start,
                            here,
                        ));
                    }
                    match append_digit(acc, b) {
                        None => {
                            proof {
                                let end = digits_end(bytes, start);
                                lemma_decimal_value_prefix(
                                    bytes.subrange(start, end),
                                    here + 1 - start,
                                );
                                assert(bytes.subrange(start, end).take(here + 1 - start)
                                    =~= bytes.subrange(start, here + 1));
                            }
                            return Err(ProtocolError::Malformed);
                        },
                        Some(v) => {
                            acc = v;
                        },
                    }
                    self.next_byte();
                },
            }
        }
        if self.position() == begin {
            return Err(ProtocolError::Malformed);
        }
        match self.expect_crlf() {
            Err(e) => Err(e),
            Ok(_) => Ok(acc),
        }
    }

    /// Decodes the value under the cursor and moves the cursor behind it.
    ///
    /// When decoding fails, the cursor is left somewhere between where it
    /// was and the end of the buffer.
    pub fn parse(&mut self) -> (r: Result<DataType, ProtocolError>)
        ensures
            final(self).input() == old(self).input(),
            old(self).cursor() <= final(self).cursor() <= final(self).input().len(),
            match decode_frame(old(self).input(), old(self).cursor()) {
                Ok((frame, end)) => r matches Ok(value) && value@ == frame && final(self).cursor()
                    == end,
                Err(e) => r == Err::<DataType, ProtocolError>(e),
            },
        decreases old(self).input().len() - old(self).cursor(), 1nat,
    {
        let r = match self.current() {
            None => Err(ProtocolError::Truncated),
            Some(43) => self.parse_simple_strings(),
            Some(36) => self.parse_bulk_strings(),
            Some(42) => self.parse_arrays(),
            Some(_) => Err(ProtocolError::UnsupportedFrameType),
        };
        proof {
            use_type_invariant(&*self);
        }
        r
    }

    /// Reads a simple string: the bytes up to the next line terminator.
    fn parse_simple_strings(&mut self) -> (r: Result<DataType, ProtocolError>)
        requires
            old(self).cursor() < old(self).input().len(),
        ensures
            final(self).input() == old(self).input(),
            old(self).cursor() <= final(self).cursor(),
            match decode_simple(old(self).input(), old(self).cursor() + 1) {
                Ok((frame, end)) => r matches Ok(value) && value@ == frame && final(self).cursor()
                    == end,
                Err(e) => r == Err::<DataType, ProtocolError>(e),
            },
    {
        self.next_byte();
        let ghost bytes = self.input();
        let ghost start = self.cursor();
        let mut buf = String::new();
        proof {
            lemma_line_end(bytes, start);
        }
        while !self.is_cur_crlf()
            invariant
                self.input() == bytes,
                bytes == old(self).input(),
                start == old(self).cursor() + 1,
                0 <= start <= self.cursor() <= bytes.len(),
                line_end(bytes, start) == line_end(bytes, self.cursor()),
                buf@ == lower_text(bytes.subrange(start, self.cursor())),
            decreases bytes.len() - self.cursor(),
        {
            match self.current() {
                None => {
                    return Err(ProtocolError::Truncated);
                },
                Some(b) => {
                    push_char(&mut buf, to_lower(b) as char);
                    self.next_byte();
                },
            }
        }
        self.next_byte();
        self.next_byte();
        Ok(DataType::SimpleString(buf))
    }

    /// Reads a bulk string: a length line, that many bytes, and a line
    /// terminator.
    fn parse_bulk_strings(&mut self) -> (r: Result<DataType, ProtocolError>)
        requires
            old(self).cursor() < old(self).input().len(),
        ensures
            final(self).input() == old(self).input(),
            old(self).cursor() <= final(self).cursor(),
            match decode_bulk(old(self).input(), old(self).cursor() + 1) {
                Ok((frame, end)) => r matches Ok(value) && value@ == frame && final(self).cursor()
                    == end,
                Err(e) => r == Err::<DataType, ProtocolError>(e),
            },
    {
        self.next_byte();
        let count = self.read_number()?;
        let ghost bytes = self.input();
        let ghost start = self.cursor();
        if count > self.data.len() - self.position() {
            return Err(ProtocolError::Truncated);
        }
        let mut text = String::new();
        let mut i: usize = 0;
        while i < count
            invariant
                self.input() == bytes,
                bytes == old(self).input(),
                i <= count,
                0 <= start,
                start + count <= bytes.len(),
                self.cursor() == start + i,
                text@ == lower_text(bytes.subrange(start, start + i)),
            decreases count - i,
        {
            let b = self.data[self.position()];
            push_char(&mut text, to_lower(b) as char);
            self.next_byte();
            i += 1;
        }
        self.expect_crlf()?;
        Ok(DataType::BulkString(text))
    }

    /// Reads an array: a count line, then that many values.
    fn parse_arrays(&mut self) -> (r: Result<DataType, ProtocolError>)
        requires
            old(self).cursor() < old(self).input().len(),
        ensures
            final(self).input() == old(self).input(),
            old(self).cursor() <= final(self).cursor(),
            match decode_length(old(self).input(), old(self).cursor() + 1) {
                Err(e) => r == Err::<DataType, ProtocolError>(e),
                Ok((n, start)) => match decode_elems(
                    old(self).input(),
                    start,
                    n as nat,
                    Seq::empty(),
                ) {
                    Err(e) => r == Err::<DataType, ProtocolError>(e),
                    Ok((items, end)) => r matches Ok(value) && value@ == Frame::Array(items)
                        && final(self).cursor() == end,
                },
            },
        decreases old(self).input().len() - old(self).cursor(), 0nat,
    {
        self.next_byte();
        let count = self.read_number()?;
        let ghost bytes = self.input();
        let ghost start = self.cursor();
        let ghost mut done: Seq<Frame> = Seq::empty();
        let mut items: Vec<DataType> = Vec::new();
        let mut i: usize = 0;
        while i < count
            invariant
                self.input() == bytes,
                bytes == old(self).input(),
                i <= count,
                old(self).cursor() < start <= self.cursor() <= bytes.len(),
                decode_length(bytes, old(self).cursor() + 1) == Ok::<(usize, int), ProtocolError>(
                    (count, start),
                ),
                items@.len() == i,
                done.len() == i,
                forall|k: int| 0 <= k < i ==> (#[trigger] items@[k])@ == done[k],
                decode_elems(bytes, start, count as nat, Seq::empty()) == decode_elems(
                    bytes,
                    self.cursor(),
                    (count - i) as nat,
                    done,
                ),
            decreases count - i,
        {
            proof {
                lemma_decode_frame_advances(bytes, self.cursor());
            }
            let item = self.parse()?;
            proof {
                done = done.push(item@);
            }
            items.push(item);
            i += 1;
        }
        let value = DataType::Array(items);
        assert(value@->Array_0 =~= done);
        Ok(value)
    }
}

/// Decodes the value at the start of `data`: the value, and how many bytes
/// it takes up.
pub fn decode(data: &[u8]) -> (r: Result<(DataType, usize), ProtocolError>)
    ensures
        match decode_frame(data@, 0) {
            Ok((frame, end)) => r matches Ok((value, used)) && value@ == frame && used == end,
            Err(e) => r == Err::<(DataType, usize), ProtocolError>(e),
        },
{
    let mut parser = Parser::new(data);
    match parser.parse() {
        Err(e) => Err(e),
        Ok(value) => Ok((value, parser.position())),
    }
}

} // verus!
