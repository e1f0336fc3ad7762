//! Byte and character helpers shared by the codec: ASCII case folding and
//! decimal numerals.

use vstd::prelude::*;
use vstd::string::*;
use vstd::utf8::{decode_utf8, encode_utf8, encode_utf8_decode_utf8};

verus! {

/// Folds an ASCII upper-case letter to lower case and leaves every other byte alone.
pub open spec fn lower_byte(b: u8) -> u8 {
    if 65 <= b <= 90 {
        (b + 32) as u8
    } else {
        b
    }
}

/// The text that a run of wire bytes decodes to: one character per byte,
/// with ASCII letters folded to lower case.
pub open spec fn lower_text(bytes: Seq<u8>) -> Seq<char> {
    Seq::new(bytes.len(), |i: int| lower_byte(bytes[i]) as char)
}

/// Whether `b` is one of the ASCII digits `0` to `9`.
pub open spec fn is_digit(b: u8) -> bool {
    48 <= b <= 57
}

/// Whether every byte of `s` is an ASCII digit.
pub open spec fn all_digits(s: Seq<u8>) -> bool {
    forall|i: int| 0 <= i < s.len() ==> is_digit(#[trigger] s[i])
}

/// The number that a run of ASCII digits denotes in base ten (0 for the empty run).
pub open spec fn decimal_value(s: Seq<u8>) -> nat
    decreases s.len(),
{
    if s.len() == 0 {
        0
    } else {
        decimal_value(s.drop_last()) * 10 + (s.last() - 48) as nat
    }
}

/// The shortest base-ten numeral of `n`, most significant digit first.
pub open spec fn decimal(n: nat) -> Seq<char>
    decreases n,
{
    if n < 10 {
        seq![(48 + n) as char]
    } else {
        decimal(n / 10).push((48 + n % 10) as char)
    }
}

/// What a numeral denotes: `Some(v)` when `s` is an optional `+` followed by
/// at least one ASCII digit, `None` for anything else.
pub open spec fn numeral_value(s: Seq<u8>) -> Option<nat> {
    let digits = if s.len() > 0 && s[0] == 43 {
        s.skip(1)
    } else {
        s
    };
    if digits.len() > 0 && all_digits(digits) {
        Some(decimal_value(digits))
    } else {
        None
    }
}

/// Folds an ASCII upper-case letter to lower case.
pub fn to_lower(b: u8) -> (r: u8)
    ensures
        r == lower_byte(b),
{
    if 65 <= b && b <= 90 {
        b + 32
    } else {
        b
    }
}

/// `String::push`: appends one character to the end of the string.
#[verifier::external_body]
pub(crate) fn push_char(s: &mut String, c: char)
    ensures
        final(s)@ == old(s)@.push(c),
{
    s.push(c)
}

/// A longer digit run never denotes a smaller number than one of its prefixes.
pub proof fn lemma_decimal_value_prefix(s: Seq<u8>, k: int)
    requires
        0 <= k <= s.len(),
    ensures
        decimal_value(s.take(k)) <= decimal_value(s),
    decreases s.len(),
{
    if k == s.len() {
        assert(s.take(k) =~= s);
    } else {
        lemma_decimal_value_prefix(s.drop_last(), k);
        assert(s.drop_last().take(k) =~= s.take(k));
    }
}

/// Appends the digit `d` to the number `acc`, or reports that the result
/// does not fit in a machine word.
pub(crate) fn append_digit(acc: usize, d: u8) -> (r: Option<usize>)
    requires
        is_digit(d),
    ensures
        match r {
            Some(v) => v == acc * 10 + (d - 48),
            None => acc * 10 + (d - 48) > usize::MAX,
        },
{
    match acc.checked_mul(10) {
        None => None,
        Some(t) => t.checked_add((d - 48) as usize),
    }
}

/// Renders `n` in base ten.
pub fn usize_to_string(n: usize) -> (s: String)
    ensures
        s@ == decimal(n as nat),
    decreases n,
{
    if n < 10 {
        let mut s = String::new();
        push_char(&mut s, (48 + n as u8) as char);
        s
    } else {
        let mut s = usize_to_string(n / 10);
        push_char(&mut s, (48 + (n % 10) as u8) as char);
        s
    }
}

/// Reads a numeral from the UTF-8 bytes of `s`: an optional `+` followed by
/// ASCII digits. Gives nothing for any other text, and for a number that
/// does not fit a machine word.
pub fn parse_usize(s: &str) -> (r: Option<usize>)
    ensures
        match r {
            Some(v) => numeral_value(encode_utf8(s@)) == Some(v as nat),
            None => match numeral_value(encode_utf8(s@)) {
                Some(v) => v > usize::MAX,
                None => true,
            },
        },
{
    let bytes = s.as_bytes();
    let n = bytes.len();
    let start: usize = if n > 0 && bytes[0] == 43 {
        1
    } else {
        0
    };
    if start == n {
        return None;
    }
    let ghost digits = bytes@.skip(start as int);
    let mut acc: usize = 0;
    let mut i: usize = start;
    while i < n
        invariant
            start <= i <= n,
            n == bytes@.len(),
            start < n,
            bytes@ == encode_utf8(s@),
            start == (if bytes@[0] == 43 { 1int } else { 0int }),
            digits == bytes@.skip(start as int),
            all_digits(digits.take(i - start)),
            acc == decimal_value(digits.take(i - start)),
        decreases n - i,
    {
        let b = bytes[i];
        if !(48 <= b && b <= 57) {
            assert(!is_digit(digits[i - start]));
            return None;
        }
        assert(digits.take(i + 1 - start).drop_last() =~= digits.take(i - start));
        match append_digit(acc, b) {
            None => {
                proof {
                    lemma_decimal_value_prefix(digits, i + 1 - start);
                    assert(bytes@.skip(0) =~= bytes@);
                }
                return None;
            },
            Some(v) => {
                acc = v;
            },
        }
        i += 1;
    }
    assert(digits.take(n - start) =~= digits);
    assert(bytes@.skip(0) =~= bytes@);
    Some(acc)
}

/// Whether two strings hold the same text.
pub fn str_eq(a: &str, b: &str) -> (same: bool)
    ensures
        same == (a@ == b@),
{
    let x = a.as_bytes();
    let y = b.as_bytes();
    proof {
        encode_utf8_decode_utf8(a@);
        encode_utf8_decode_utf8(b@);
    }
    if x.len() != y.len() {
        return false;
    }
    let mut i: usize = 0;
    while i < x.len()
        invariant
            i <= x.len(),
            x@.len() == y@.len(),
            x@ == encode_utf8(a@),
            y@ == encode_utf8(b@),
            decode_utf8(encode_utf8(a@)) == a@,
            decode_utf8(encode_utf8(b@)) == b@,
            forall|k: int| 0 <= k < i ==> x@[k] == y@[k],
        decreases x.len() - i,
    {
        if x[i] != y[i] {
            return false;
        }
        i += 1;
    }
    assert(x@ =~= y@);
    true
}

} // verus!
