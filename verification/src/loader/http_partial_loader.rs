//! Load the chunks via HTTP `Range` requests: the request's `Range` header and the checks of
//! the response.

use vstd::prelude::*;

use crate::chunker::Offset;
use crate::loader::utils::{digits_value, is_digit};

verus! {

/// The decimal representation of `n`, as ASCII digits.
pub open spec fn decimal(n: nat) -> Seq<u8>
    decreases n,
{
    if n < 10 {
        seq![(48 + n) as u8]
    } else {
        decimal(n / 10).push((48 + n % 10) as u8)
    }
}

/// The value of the `Range` header that requests the bytes from `first_byte_offset` to
/// `last_byte_offset`, both included: `bytes=<first>-<last>`.
/// (ASCII: `b` 98, `y` 121, `t` 116, `e` 101, `s` 115, `=` 61, `-` 45.)
pub open spec fn range_header(first_byte_offset: Offset, last_byte_offset: Offset) -> Seq<u8> {
    seq![98u8, 121u8, 116u8, 101u8, 115u8, 61u8] + decimal(first_byte_offset as nat) + seq![45u8]
        + decimal(last_byte_offset as nat)
}

/// Append the decimal representation of `n` to `out`.
fn push_decimal(out: &mut Vec<u8>, n: u64)
    ensures
        final(out)@ == old(out)@ + decimal(n as nat),
{
    let mut rev: Vec<u8> = Vec::new();
    let mut m: u64 = n;
    while m >= 10
        invariant
            decimal(n as nat) == decimal(m as nat) + rev@.reverse(),
        decreases m,
    {
        let digit: u8 = (48 + m % 10) as u8;
        proof {
            assert(decimal(m as nat) == decimal((m / 10) as nat).push(digit));
            assert(rev@.push(digit).reverse() =~= seq![digit] + rev@.reverse());
            assert(decimal(m as nat) + rev@.reverse() =~= decimal((m / 10) as nat) + rev@.push(
                digit,
            ).reverse());
        }
        rev.push(digit);
        m = m / 10;
    }
    let digit: u8 = (48 + m) as u8;
    proof {
        assert(rev@.push(digit).reverse() =~= seq![digit] + rev@.reverse());
    }
    rev.push(digit);
    let ghost digits = rev@.reverse();
    let mut i: usize = rev.len();
    while i > 0
        invariant
            0 <= i <= rev@.len(),
            digits == rev@.reverse(),
            out@ == old(out)@ + digits.take(rev@.len() - i),
        decreases i,
    {
        i = i - 1;
        proof {
            assert(digits.take(rev@.len() - i) =~= digits.take(rev@.len() - i - 1).push(rev@[i as int]));
        }
        out.push(rev[i]);
    }
    proof {
        assert(digits.take(rev@.len() as int) =~= digits);
    }
}

/// The value of the `Range` header requesting the given bytes.
pub fn range_header_value(first_byte_offset: Offset, last_byte_offset: Offset) -> (r: Vec<u8>)
    ensures
        r@ == range_header(first_byte_offset, last_byte_offset),
{
    let mut r: Vec<u8> = Vec::new();
    r.push(98u8);
    r.push(121u8);
    r.push(116u8);
    r.push(101u8);
    r.push(115u8);
    r.push(61u8);
    push_decimal(&mut r, first_byte_offset);
    r.push(45u8);
    push_decimal(&mut r, last_byte_offset);
    proof {
        assert(r@ =~= range_header(first_byte_offset, last_byte_offset));
    }
    r
}

/// The HTTP status of a successful partial-content response.
pub const PARTIAL_CONTENT: u16 = 206;

/// How the handshake for a chunk failed.
#[derive(Debug, PartialEq, Eq, Structural)]
pub enum HandshakeFailure {
    /// The request has failed to build.
    RequestBuild,
    /// The request execution has failed; the flags tell whether the message was incomplete and
    /// whether the request timed out.
    Request { incomplete_message: bool, timeout: bool },
    /// The server has returned bad status.
    BadStatus(u16),
    /// The server response did not contain the `Content-Range`.
    NoContentRange,
}

impl HandshakeFailure {
    /// A failed request execution is worth retrying when the message was incomplete or the
    /// request timed out.
    pub open spec fn spec_is_retriable(&self) -> bool {
        match *self {
            HandshakeFailure::Request { incomplete_message, timeout } => incomplete_message
                || timeout,
            _ => false,
        }
    }

    /// Whether loading the chunk should be attempted again after this failure.
    pub fn is_retriable(&self) -> (r: bool)
        ensures
            r == self.spec_is_retriable(),
    {
        match self {
            HandshakeFailure::Request { incomplete_message, timeout } => *incomplete_message
                || *timeout,
            _ => false,
        }
    }
}

/// Check the response to a range request: the status must be "partial content", and the
/// `Content-Range` header must be present.
pub fn check_response(status: u16, has_content_range: bool) -> (r: Result<(), HandshakeFailure>)
    ensures
        status != PARTIAL_CONTENT ==> r == Err::<(), HandshakeFailure>(
            HandshakeFailure::BadStatus(status),
        ),
        status == PARTIAL_CONTENT && !has_content_range ==> r == Err::<(), HandshakeFailure>(
            HandshakeFailure::NoContentRange,
        ),
        status == PARTIAL_CONTENT && has_content_range ==> r is Ok,
{
    if status != PARTIAL_CONTENT {
        return Err(HandshakeFailure::BadStatus(status));
    }
    if !has_content_range {
        return Err(HandshakeFailure::NoContentRange);
    }
    Ok(())
}


/// The decimal text of `n` is made of ASCII digits, starts with `0` only when `n` is zero, and
/// reads back as `n`.
pub proof fn law_decimal_reads_back(n: nat)
    ensures
        decimal(n).len() >= 1,
        forall|i: int| 0 <= i < decimal(n).len() ==> is_digit(#[trigger] decimal(n)[i]),
        digits_value(decimal(n)) == n,
        decimal(n)[0] == 48 <==> n == 0,
    decreases n,
{
    if n >= 10 {
        law_decimal_reads_back(n / 10);
        let d = decimal(n / 10);
        let t = decimal(n);
        assert(t.drop_last() =~= d);
        assert(t[0] == d[0]);
        assert forall|i: int| 0 <= i < t.len() implies is_digit(#[trigger] t[i]) by {
            if i < d.len() {
                assert(t[i] == d[i]);
            }
        }
        assert(n == (n / 10) * 10 + n % 10);
        assert(t.last() == (48 + n % 10) as u8);
        assert(digits_value(t) == digits_value(d) * 10 + (t.last() - 48));
    } else {
        let t = decimal(n);
        assert(t.drop_last() =~= Seq::<u8>::empty());
        assert(digits_value(t) == digits_value(t.drop_last()) * 10 + (t.last() - 48));
    }
}

/// The `Range` header names both offsets as absolute byte positions: after `bytes=` comes the
/// decimal text of the first offset, then `-`, then the decimal text of the last offset, each
/// reading back as the offset it names.
pub proof fn law_range_header_names_offsets(first_byte_offset: Offset, last_byte_offset: Offset)
    ensures
        ({
            let h = range_header(first_byte_offset, last_byte_offset);
            let a = decimal(first_byte_offset as nat).len() as int;
            &&& h.subrange(0, 6) == seq![98u8, 121u8, 116u8, 101u8, 115u8, 61u8]
            &&& forall|i: int| 6 <= i < 6 + a ==> is_digit(#[trigger] h[i])
            &&& digits_value(h.subrange(6, 6 + a)) == first_byte_offset
            &&& h[6 + a] == 45u8
            &&& forall|i: int| 7 + a <= i < h.len() ==> is_digit(#[trigger] h[i])
            &&& digits_value(h.subrange(7 + a, h.len() as int)) == last_byte_offset
            &&& h.len() > 7 + a
        }),
{
    law_decimal_reads_back(first_byte_offset as nat);
    law_decimal_reads_back(last_byte_offset as nat);
    let h = range_header(first_byte_offset, last_byte_offset);
    let df = decimal(first_byte_offset as nat);
    let dl = decimal(last_byte_offset as nat);
    let a = df.len() as int;
    assert(h.subrange(6, 6 + a) =~= df);
    assert(h.subrange(7 + a, h.len() as int) =~= dl);
    assert(h.subrange(0, 6) =~= seq![98u8, 121u8, 116u8, 101u8, 115u8, 61u8]);
    assert forall|i: int| 6 <= i < 6 + a implies is_digit(#[trigger] h[i]) by {
        assert(h[i] == df[i - 6]);
    }
    assert forall|i: int| 7 + a <= i < h.len() implies is_digit(#[trigger] h[i]) by {
        assert(h[i] == dl[i - 7 - a]);
    }
}

/// A failed request execution is worth retrying exactly when the message was incomplete or the
/// request timed out; the other handshake failures are not.
pub proof fn law_handshake_retry_policy(incomplete_message: bool, timeout: bool, status: u16)
    ensures
        (HandshakeFailure::Request { incomplete_message, timeout }).spec_is_retriable() == (
        incomplete_message || timeout),
        !HandshakeFailure::RequestBuild.spec_is_retriable(),
        !HandshakeFailure::BadStatus(status).spec_is_retriable(),
        !HandshakeFailure::NoContentRange.spec_is_retriable(),
{
}

} // verus!
