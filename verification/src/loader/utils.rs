//! Utilities: the detection of the data size from the response headers.

use vstd::prelude::*;

use crate::chunker::Size;
use crate::loader::http_partial_loader::{decimal, law_decimal_reads_back};

verus! {

/// A byte that a header value may hold to be read as text: visible ASCII or a tab.
pub open spec fn is_visible_ascii(b: u8) -> bool {
    (32 <= b && b < 127) || b == 9
}

/// Whether all bytes of the header value are visible ASCII.
pub open spec fn is_text(s: Seq<u8>) -> bool {
    forall|i: int| 0 <= i < s.len() ==> is_visible_ascii(#[trigger] s[i])
}

/// An ASCII decimal digit.
pub open spec fn is_digit(b: u8) -> bool {
    48 <= b && b <= 57
}

/// The value of a string of decimal digits.
pub open spec fn digits_value(s: Seq<u8>) -> int
    decreases s.len(),
{
    if s.len() == 0 {
        0
    } else {
        digits_value(s.drop_last()) * 10 + (s.last() - 48)
    }
}

/// The digits of an unsigned decimal number: the text after an optional leading `+` (43).
pub open spec fn number_digits(s: Seq<u8>) -> Seq<u8> {
    if s.len() > 0 && s[0] == 43 {
        s.drop_first()
    } else {
        s
    }
}

/// Whether the text is an unsigned decimal number (an optional `+`, then at least one digit)
/// whose value fits in a `u64`.
pub open spec fn parses_as_u64(s: Seq<u8>) -> bool {
    let d = number_digits(s);
    &&& d.len() > 0
    &&& forall|i: int| 0 <= i < d.len() ==> is_digit(#[trigger] d[i])
    &&& digits_value(d) <= u64::MAX
}

/// The `Accept-Ranges` value that announces support for byte ranges: `bytes`.
pub open spec fn bytes_unit() -> Seq<u8> {
    seq![98u8, 121u8, 116u8, 101u8, 115u8]
}

/// Whether one of the `Accept-Ranges` values is `bytes`.
pub open spec fn accepts_byte_ranges(values: Seq<Vec<u8>>) -> bool {
    exists|i: int| 0 <= i < values.len() && #[trigger] values[i]@ == bytes_unit()
}

/// Why the data size could not be detected.
#[derive(Debug, PartialEq, Eq, Structural)]
pub enum DetectSizeError {
    /// The response has no `Content-Length` header.
    NoContentLength,
    /// The `Content-Length` value is not text.
    ContentLengthNotText,
    /// The `Content-Length` value is not a number that fits in a `u64`.
    InvalidContentLength,
    /// The server does not accept range requests.
    RangesNotSupported,
}

proof fn lemma_digits_value_prefix(d: Seq<u8>, i: int, j: int)
    requires
        0 <= i <= j <= d.len(),
        forall|k: int| 0 <= k < d.len() ==> is_digit(#[trigger] d[k]),
    ensures
        0 <= digits_value(d.take(i)) <= digits_value(d.take(j)),
    decreases j,
{
    if j > 0 {
        assert(d.take(j).drop_last() =~= d.take(j - 1));
        assert(is_digit(d[j - 1]));
        if i < j {
            lemma_digits_value_prefix(d, i, j - 1);
        } else {
            lemma_digits_value_prefix(d, j - 1, j - 1);
        }
    } else {
        assert(d.take(0) =~= Seq::<u8>::empty());
    }
}

/// Whether all bytes of the value are visible ASCII.
pub fn is_text_value(value: &[u8]) -> (r: bool)
    ensures
        r == is_text(value@),
{
    let mut i: usize = 0;
    while i < value.len()
        invariant
            0 <= i <= value@.len(),
            forall|k: int| 0 <= k < i ==> is_visible_ascii(#[trigger] value@[k]),
        decreases value@.len() - i,
    {
        let b = value[i];
        if !((32 <= b && b < 127) || b == 9) {
            return false;
        }
        i = i + 1;
    }
    true
}

/// Read an unsigned decimal number: an optional `+`, then at least one digit, the value
/// fitting in a `u64`.
pub fn parse_u64(s: &[u8]) -> (r: Option<u64>)
    ensures
        r is Some <==> parses_as_u64(s@),
        r matches Some(v) ==> v == digits_value(number_digits(s@)),
{
    let start: usize = if s.len() > 0 && s[0] == 43 {
        1
    } else {
        0
    };
    let ghost d = number_digits(s@);
    proof {
        assert(d =~= s@.skip(start as int));
    }
    if start >= s.len() {
        return None;
    }
    let mut value: u64 = 0;
    let mut i: usize = start;
    while i < s.len()
        invariant
            start <= i <= s@.len(),
            d == s@.skip(start as int),
            d == number_digits(s@),
            forall|k: int| 0 <= k < i - start ==> is_digit(#[trigger] d[k]),
            value == digits_value(d.take(i - start)),
        decreases s@.len() - i,
    {
        let b = s[i];
        let ghost n = i - start;
        proof {
            assert(d[n] == b);
            assert(d.take(n + 1).drop_last() =~= d.take(n));
        }
        if !(48 <= b && b <= 57) {
            proof {
                assert(!is_digit(d[n]));
            }
            return None;
        }
        proof {
            assert(d.take(n + 1).last() == b);
            assert(digits_value(d.take(n + 1)) == value * 10 + (b - 48));
        }
        let digit: u64 = (b - 48) as u64;
        let shifted = match value.checked_mul(10) {
            Some(v) => v,
            None => {
                proof {
                    if forall|k: int| 0 <= k < d.len() ==> is_digit(#[trigger] d[k]) {
                        lemma_digits_value_prefix(d, n + 1, d.len() as int);
                        assert(d.take(d.len() as int) =~= d);
                    }
                }
                return None;
            },
        };
        value = match shifted.checked_add(digit) {
            Some(v) => v,
            None => {
                proof {
                    if forall|k: int| 0 <= k < d.len() ==> is_digit(#[trigger] d[k]) {
                        lemma_digits_value_prefix(d, n + 1, d.len() as int);
                        assert(d.take(d.len() as int) =~= d);
                    }
                }
                return None;
            },
        };
        i = i + 1;
    }
    proof {
        assert(d.take(d.len() as int) =~= d);
    }
    Some(value)
}

/// Whether one of the `Accept-Ranges` values is `bytes`.
pub fn accepts_byte_ranges_values(values: &Vec<Vec<u8>>) -> (r: bool)
    ensures
        r == accepts_byte_ranges(values@),
{
    let mut i: usize = 0;
    while i < values.len()
        invariant
            0 <= i <= values@.len(),
            forall|k: int| 0 <= k < i ==> #[trigger] values@[k]@ != bytes_unit(),
        decreases values@.len() - i,
    {
        let v = &values[i];
        if v.len() == 5 && v[0] == 98 && v[1] == 121 && v[2] == 116 && v[3] == 101 && v[4] == 115 {
            proof {
                assert(values@[i as int]@ =~= bytes_unit());
            }
            return true;
        }
        proof {
            if values@[i as int]@ == bytes_unit() {
                assert(v@[0] == 98);
            }
        }
        i = i + 1;
    }
    false
}

/// The size of the data, from the `Content-Length` value and the `Accept-Ranges` values of
/// the response to a `HEAD` request: the length must be present, be text and be a number,
/// and the server must accept byte ranges.
pub fn size_from_headers(content_length: Option<&[u8]>, accept_ranges: &Vec<Vec<u8>>) -> (r:
    Result<Size, DetectSizeError>)
    ensures
        match content_length {
            None => r == Err::<Size, DetectSizeError>(DetectSizeError::NoContentLength),
            Some(value) => if !is_text(value@) {
                r == Err::<Size, DetectSizeError>(DetectSizeError::ContentLengthNotText)
            } else if !parses_as_u64(value@) {
                r == Err::<Size, DetectSizeError>(DetectSizeError::InvalidContentLength)
            } else if !accepts_byte_ranges(accept_ranges@) {
                r == Err::<Size, DetectSizeError>(DetectSizeError::RangesNotSupported)
            } else {
                r == Ok::<Size, DetectSizeError>(digits_value(number_digits(value@)) as u64)
            },
        },
{
    let value = match content_length {
        Some(value) => value,
        None => return Err(DetectSizeError::NoContentLength),
    };
    if !is_text_value(value) {
        return Err(DetectSizeError::ContentLengthNotText);
    }
    let size = match parse_u64(value) {
        Some(size) => size,
        None => return Err(DetectSizeError::InvalidContentLength),
    };
    if !accepts_byte_ranges_values(accept_ranges) {
        return Err(DetectSizeError::RangesNotSupported);
    }
    Ok(size)
}


/// The decimal text of a `u64` reads as that number, with or without a leading `+`; the decimal
/// text of a number beyond `u64::MAX` does not read.
pub proof fn law_reads_decimal_text(n: u64, big: nat)
    requires
        big > u64::MAX,
    ensures
        parses_as_u64(decimal(n as nat)),
        digits_value(number_digits(decimal(n as nat))) == n,
        parses_as_u64(seq![43u8] + decimal(n as nat)),
        digits_value(number_digits(seq![43u8] + decimal(n as nat))) == n,
        !parses_as_u64(decimal(big)),
{
    law_decimal_reads_back(n as nat);
    law_decimal_reads_back(big);
    let d = decimal(n as nat);
    assert(d[0] != 43u8) by {
        assert(is_digit(d[0]));
    }
    assert(number_digits(d) == d);
    assert((seq![43u8] + d).drop_first() =~= d);
    let b = decimal(big);
    assert(b[0] != 43u8) by {
        assert(is_digit(b[0]));
    }
}

/// A text reads as a number only when it is at least one ASCII digit (`0` to `9`) after an
/// optional leading `+`: an empty text, a lone `+`, and a text with any other byte do not read.
pub proof fn law_rejects_non_numbers(s: Seq<u8>, i: int)
    ensures
        s.len() == 0 ==> !parses_as_u64(s),
        s =~= seq![43u8] ==> !parses_as_u64(s),
        (0 < i < s.len() && !(48 <= s[i] <= 57)) ==> !parses_as_u64(s),
        (s.len() > 0 && s[0] != 43 && !(48 <= s[0] <= 57)) ==> !parses_as_u64(s),
{
    if 0 < i < s.len() && !(48 <= s[i] <= 57) && parses_as_u64(s) {
        let d = number_digits(s);
        if s[0] == 43 {
            assert(d[i - 1] == s[i]);
        } else {
            assert(d[i] == s[i]);
        }
    }
    if s.len() > 0 && s[0] != 43 && !(48 <= s[0] <= 57) && parses_as_u64(s) {
        assert(number_digits(s)[0] == s[0]);
    }
    if s =~= seq![43u8] {
        assert(number_digits(s).len() == 0);
    }
}


/// The ranges are accepted exactly when one of the `Accept-Ranges` values is the text `bytes`.
pub proof fn law_accepts_bytes(values: Seq<Vec<u8>>)
    ensures
        accepts_byte_ranges(values) <==> exists|i: int|
            0 <= i < values.len() && #[trigger] values[i]@ =~= seq![98u8, 121u8, 116u8, 101u8, 115u8],
{
}

} // verus!
