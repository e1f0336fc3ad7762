//! Protocol values and their wire encoding.

use vstd::prelude::*;
use vstd::string::*;
use vstd::utf8::encode_utf8;
use crate::resp::command::CommandError;
use crate::resp::serializer::{bulk_text, crlf, null_bulk, simple_text, Serializer};
use crate::resp::text::{decimal, numeral_value, parse_usize, usize_to_string};

verus! {

/// The mathematical content of a protocol value.
pub enum Frame {
    Simple(Seq<char>),
    Bulk(Seq<char>),
    Array(Seq<Frame>),
}

/// A protocol value: one of the two string framings, or an array of values.
#[derive(Debug, PartialEq, Eq)]
pub enum DataType {
    SimpleString(String),
    BulkString(String),
    Array(Vec<DataType>),
}

impl View for DataType {
    type V = Frame;

    open spec fn view(&self) -> Frame
        decreases self,
    {
        match self {
            DataType::SimpleString(s) => Frame::Simple(s@),
            DataType::BulkString(s) => Frame::Bulk(s@),
            DataType::Array(items) => Frame::Array(
                Seq::new(
                    items.len() as nat,
                    |i: int|
                        if 0 <= i < items.len() {
                            items[i]@
                        } else {
                            Frame::Array(Seq::empty())
                        },
                ),
            ),
        }
    }
}

/// The text of a string value; `None` for an array.
pub open spec fn text_of(f: Frame) -> Option<Seq<char>> {
    match f {
        Frame::Simple(t) => Some(t),
        Frame::Bulk(t) => Some(t),
        Frame::Array(_) => None,
    }
}

/// The number that a string value spells, if it spells one that fits a
/// machine word: an optional `+`, then decimal digits.
pub open spec fn usize_of(f: Frame) -> Option<usize> {
    match text_of(f) {
        None => None,
        Some(t) => match numeral_value(encode_utf8(t)) {
            Some(v) => if v <= usize::MAX {
                Some(v as usize)
            } else {
                None
            },
            None => None,
        },
    }
}

/// The wire text of a value.
///
/// A string with empty text, of either framing, becomes the null token. An
/// array is its count followed by its elements, so the empty array is `*0\r\n`.
pub open spec fn encode(f: Frame) -> Seq<char>
    decreases f,
{
    match f {
        Frame::Simple(t) => if t.len() == 0 {
            null_bulk()
        } else {
            simple_text(t)
        },
        Frame::Bulk(t) => bulk_text(t),
        Frame::Array(items) => seq!['*'] + decimal(items.len()) + crlf() + encode_all(items),
    }
}

/// The wire texts of `items`, one after the other.
pub open spec fn encode_all(items: Seq<Frame>) -> Seq<char>
    decreases items,
{
    if items.len() == 0 {
        Seq::empty()
    } else {
        encode_all(items.drop_last()) + encode(items.last())
    }
}

/// The bytes of a value on the wire: its wire text in UTF-8.
pub open spec fn wire_bytes(frame: Frame) -> Seq<u8> {
    encode_utf8(encode(frame))
}

impl DataType {
    /// The text of a string value; an array has none.
    pub fn try_into_string(&self) -> (r: Result<String, CommandError>)
        ensures
            match text_of(self@) {
                Some(t) => r matches Ok(s) && s@ == t,
                None => r == Err::<String, CommandError>(CommandError::TypeMismatch),
            },
    {
        match self {
            DataType::SimpleString(s) => Ok(s.clone()),
            DataType::BulkString(s) => Ok(s.clone()),
            DataType::Array(_) => Err(CommandError::TypeMismatch),
        }
    }

    /// The number that a string value spells. An array spells none, nor
    /// does text that is no numeral or whose number does not fit a machine
    /// word.
    pub fn try_into_usize(&self) -> (r: Result<usize, CommandError>)
        ensures
            match usize_of(self@) {
                Some(n) => r == Ok::<usize, CommandError>(n),
                None => r == Err::<usize, CommandError>(CommandError::TypeMismatch),
            },
    {
        match self {
            DataType::SimpleString(s) | DataType::BulkString(s) => match parse_usize(s.as_str()) {
                Some(n) => Ok(n),
                None => Err(CommandError::TypeMismatch),
            },
            DataType::Array(_) => Err(CommandError::TypeMismatch),
        }
    }

    /// The bytes of this value on the wire.
    pub fn to_bytes(&self) -> (bytes: Vec<u8>)
        ensures
            bytes@ == wire_bytes(self@),
    {
        serialize_value(self).as_str().as_bytes_vec()
    }
}

/// Copies a value, element by element.
fn clone_value(value: &DataType) -> (out: DataType)
    ensures
        out@ == value@,
    decreases value,
{
    match value {
        DataType::SimpleString(s) => DataType::SimpleString(s.clone()),
        DataType::BulkString(s) => DataType::BulkString(s.clone()),
        DataType::Array(items) => {
            let mut copies: Vec<DataType> = Vec::new();
            let mut i: usize = 0;
            while i < items.len()
                invariant
                    i <= items.len(),
                    value == DataType::Array(*items),
                    copies@.len() == i,
                    forall|k: int| 0 <= k < i ==> (#[trigger] copies@[k])@ == items@[k]@,
                decreases items.len() - i,
            {
                assert(decreases_to!(value => value->Array_0[i as int]));
                copies.push(clone_value(&items[i]));
                i += 1;
            }
            assert(DataType::Array(copies)@->Array_0 =~= value@->Array_0);
            DataType::Array(copies)
        },
    }
}

impl Clone for DataType {
    /// A copy that holds the same value.
    fn clone(&self) -> (out: Self)
        ensures
            out@ == self@,
    {
        clone_value(self)
    }
}

/// A value that has a wire form.
pub trait RespSerializable {
    /// The wire form, as text.
    spec fn wire_text(&self) -> Seq<char>;

    /// Writes the wire form out.
    fn serialize(&self) -> (out: String)
        ensures
            out@ == self.wire_text(),
    ;
}

/// Writes out the wire text of a value.
fn serialize_value(value: &DataType) -> (out: String)
    ensures
        out@ == encode(value@),
    decreases value,
{
    match value {
        DataType::SimpleString(s) => {
            if s.as_str().is_empty() {
                Serializer::to_bulk_string(s.as_str())
            } else {
                Serializer::to_simple_string(s.as_str())
            }
        },
        DataType::BulkString(s) => Serializer::to_bulk_string(s.as_str()),
        DataType::Array(items) => {
            proof {
                reveal_strlit("*");
                reveal_strlit("\r\n");
            }
            let count = usize_to_string(items.len());
            let mut out = String::from_str("*");
            out.append(count.as_str());
            out.append("\r\n");
            let ghost head = out@;
            let ghost views = value@->Array_0;
            let mut i: usize = 0;
            while i < items.len()
                invariant
                    i <= items.len(),
                    value == DataType::Array(*items),
                    views.len() == items.len(),
                    forall|k: int| 0 <= k < items.len() ==> views[k] == #[trigger] items@[k]@,
                    out@ == head + encode_all(views.take(i as int)),
                decreases items.len() - i,
            {
                assert(decreases_to!(value => value->Array_0[i as int]));
                let part = serialize_value(&items[i]);
                out.append(part.as_str());
                proof {
                    assert(views.take(i + 1).drop_last() =~= views.take(i as int));
                }
                i += 1;
            }
            assert(views.take(items.len() as int) =~= views);
            out
        },
    }
}

impl RespSerializable for DataType {
    open spec fn wire_text(&self) -> Seq<char> {
        encode(self@)
    }

    fn serialize(&self) -> (out: String) {
        serialize_value(self)
    }
}

} // verus!
