//! Encoding of single strings in the two string framings.

use vstd::prelude::*;
use vstd::string::*;
use vstd::utf8::encode_utf8;
use crate::resp::text::{decimal, usize_to_string};

verus! {

/// The line terminator of the wire format.
pub open spec fn crlf() -> Seq<char> {
    seq!['\r', '\n']
}

/// The fixed token that stands for "no value".
pub open spec fn null_bulk() -> Seq<char> {
    seq!['$', '-', '1', '\r', '\n']
}

/// `+text\r\n`.
pub open spec fn simple_text(t: Seq<char>) -> Seq<char> {
    seq!['+'] + t + crlf()
}

/// `$<len>\r\ntext\r\n`, where `len` counts the UTF-8 bytes of the text; the
/// null token for the empty text.
pub open spec fn bulk_text(t: Seq<char>) -> Seq<char> {
    if t.len() == 0 {
        null_bulk()
    } else {
        seq!['$'] + decimal(encode_utf8(t).len()) + crlf() + t + crlf()
    }
}

/// The encoder of single strings.
pub struct Serializer {}

impl Serializer {
    /// Frames `s` as a simple string. The empty text is framed like any other.
    pub fn to_simple_string(s: &str) -> (out: String)
        ensures
            out@ == simple_text(s@),
    {
        proof {
            reveal_strlit("+");
            reveal_strlit("\r\n");
        }
        let mut out = String::from_str("+");
        out.append(s);
        out.append("\r\n");
        out
    }

    /// Frames `s` as a bulk string; the empty text becomes the null token.
    pub fn to_bulk_string(s: &str) -> (out: String)
        ensures
            out@ == bulk_text(s@),
    {
        proof {
            reveal_strlit("$-1\r\n");
            reveal_strlit("$");
            reveal_strlit("\r\n");
        }
        if s.is_empty() {
            return String::from_str("$-1\r\n");
        }
        let len = usize_to_string(s.as_bytes().len());
        let mut out = String::from_str("$");
        out.append(len.as_str());
        out.append("\r\n");
        out.append(s);
        out.append("\r\n");
        out
    }
}

} // verus!
