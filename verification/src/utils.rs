//! Reading a file's length from the `Content-Length` header of a HEAD reply.

use vstd::prelude::*;

verus! {

/// A byte that a header value may hold and still be read as text: a visible
/// ASCII character, a space or a tab.
pub open spec fn is_visible_ascii(b: u8) -> bool {
    (32 <= b && b < 127) || b == 9
}

/// Every byte of the header value can be read as text.
pub open spec fn all_visible_ascii(s: Seq<u8>) -> bool {
    forall|i: int| 0 <= i < s.len() ==> is_visible_ascii(#[trigger] s[i])
}

/// An ASCII decimal digit.
pub open spec fn is_digit(b: u8) -> bool {
    48 <= b <= 57
}

/// The digits of a decimal text: all of it, or what follows a leading `+`.
pub open spec fn digits_of(s: Seq<u8>) -> Seq<u8> {
    if s.len() > 0 && s[0] == 43 {
        s.drop_first()
    } else {
        s
    }
}

/// The number that a sequence of ASCII digits writes in base ten.
pub open spec fn decimal_value(d: Seq<u8>) -> int
    decreases d.len(),
{
    if d.len() == 0 {
        0
    } else {
        decimal_value(d.drop_last()) * 10 + (d.last() - 48)
    }
}

/// The text is an unsigned decimal number that fits in a `u64`: an optional `+`,
/// then at least one digit and nothing else.
pub open spec fn parses_u64(s: Seq<u8>) -> bool {
    let d = digits_of(s);
    &&& d.len() > 0
    &&& forall|i: int| 0 <= i < d.len() ==> is_digit(#[trigger] d[i])
    &&& decimal_value(d) <= u64::MAX
}

/// Why the length of a file could not be read from a HEAD reply.
#[derive(Debug, Clone, Copy, PartialEq, Eq, Structural)]
pub enum ContentLengthError {
    /// The reply's status is not a success.
    Status,
    /// The reply has no `Content-Length` header.
    Missing,
    /// The header holds a byte that is not visible ASCII.
    NotText,
    /// The header's text is not a decimal number that fits in a `u64`.
    NotNumber,
}

/// A prefix of a sequence of digits writes a number no larger than the whole.
pub proof fn lemma_decimal_prefix(d: Seq<u8>, k: int)
    requires
        0 <= k <= d.len(),
        forall|i: int| 0 <= i < d.len() ==> is_digit(#[trigger] d[i]),
    ensures
        0 <= decimal_value(d.take(k)) <= decimal_value(d),
    decreases d.len(),
{
    if d.len() > 0 {
        let p = d.drop_last();
        assert forall|i: int| 0 <= i < p.len() implies is_digit(#[trigger] p[i]) by {
            assert(p[i] == d[i]);
        }
        assert(is_digit(d[d.len() - 1]));
        if k == d.len() {
            assert(d.take(k) =~= d);
            lemma_decimal_prefix(p, p.len() as int);
            assert(p.take(p.len() as int) =~= p);
        } else {
            assert(d.take(k) =~= p.take(k));
            lemma_decimal_prefix(p, k);
        }
    } else {
        assert(d.take(k) =~= d);
    }
}

/// Reads a decimal number the way `str::parse::<u64>` does: an optional `+`,
/// then digits only, the value at most `u64::MAX`.
pub fn parse_u64(bytes: &[u8]) -> (r: Option<u64>)
    ensures
        r == (if parses_u64(bytes@) {
            Some(decimal_value(digits_of(bytes@)) as u64)
        } else {
            None::<u64>
        }),
        r matches Some(n) ==> n == decimal_value(digits_of(bytes@)),
{
    let ghost s = bytes@;
    let start: usize = if bytes.len() > 0 && bytes[0] == 43u8 {
        1
    } else {
        0
    };
    let ghost d = digits_of(s);
    assert(d =~= s.subrange(start as int, s.len() as int));
    if start == bytes.len() {
        return None;
    }
    let mut value: u64 = 0;
    let mut i: usize = start;
    while i < bytes.len()
        invariant
            s == bytes@,
            d == s.subrange(start as int, s.len() as int),
            d == digits_of(bytes@),
            start <= i <= bytes.len(),
            forall|k: int| 0 <= k < i - start ==> is_digit(#[trigger] d[k]),
            value == decimal_value(d.take(i - start)),
        decreases bytes.len() - i,
    {
        let b: u8 = bytes[i];
        assert(b == d[i - start]);
        if b < 48u8 || b > 57u8 {
            assert(!is_digit(d[i - start]));
            return None;
        }
        let digit: u64 = (b - 48u8) as u64;
        proof {
            assert(d.take(i - start + 1).drop_last() =~= d.take(i - start));
            assert(d.take(i - start + 1).last() == b);
        }
        let next = match value.checked_mul(10) {
            Some(v) => v.checked_add(digit),
            None => None,
        };
        match next {
            Some(v) => value = v,
            None => {
                proof {
                    assert(decimal_value(d.take(i - start + 1)) == value * 10 + digit);
                    assert(decimal_value(d.take(i - start + 1)) > u64::MAX);
                    if forall|k: int| 0 <= k < d.len() ==> is_digit(#[trigger] d[k]) {
                        lemma_decimal_prefix(d, i - start + 1);
                    }
                }
                return None;
            },
        }
        i = i + 1;
    }
    assert(d.take(d.len() as int) =~= d);
    Some(value)
}

/// Whether every byte of the header value is visible ASCII, the test that
/// `HeaderValue::to_str` makes before it hands the value out as text.
pub fn is_visible_text(bytes: &[u8]) -> (r: bool)
    ensures
        r == all_visible_ascii(bytes@),
{
    let mut i: usize = 0;
    while i < bytes.len()
        invariant
            0 <= i <= bytes.len(),
            forall|k: int| 0 <= k < i ==> is_visible_ascii(#[trigger] bytes@[k]),
        decreases bytes.len() - i,
    {
        let b: u8 = bytes[i];
        if !((b >= 32u8 && b < 127u8) || b == 9u8) {
            assert(!is_visible_ascii(bytes@[i as int]));
            return false;
        }
        i = i + 1;
    }
    true
}

/// The length of a file from a HEAD reply: the reply must be a success and carry a
/// `Content-Length` header whose bytes are visible ASCII and read as a `u64`.
/// Each failure is told apart, in that order.
pub fn content_length_from_reply(status_success: bool, header: Option<&[u8]>) -> (r: Result<
    u64,
    ContentLengthError,
>)
    ensures
        !status_success ==> r == Err::<u64, ContentLengthError>(ContentLengthError::Status),
        status_success && header is None ==> r == Err::<u64, ContentLengthError>(ContentLengthError::Missing),
        status_success && header is Some ==> r == (if !all_visible_ascii(header->0@) {
            Err(ContentLengthError::NotText)
        } else if !parses_u64(header->0@) {
            Err(ContentLengthError::NotNumber)
        } else {
            Ok(decimal_value(digits_of(header->0@)) as u64)
        }),
{
    if !status_success {
        return Err(ContentLengthError::Status);
    }
    match header {
        None => Err(ContentLengthError::Missing),
        Some(h) => {
            if !is_visible_text(h) {
                return Err(ContentLengthError::NotText);
            }
            match parse_u64(h) {
                Some(n) => Ok(n),
                None => Err(ContentLengthError::NotNumber),
            }
        },
    }
}

/// Law: decimal notation. A single digit is worth its distance from `0`, and the
/// digits `a` followed by the digits `b` are worth `a`'s value shifted left by as
/// many decimal places as `b` has, plus `b`'s value.
pub proof fn lemma_decimal_value_places(a: Seq<u8>, b: Seq<u8>, x: u8)
    ensures
        decimal_value(seq![x]) == x - 48,
        decimal_value(Seq::<u8>::empty()) == 0,
        decimal_value(a + b) == decimal_value(a) * vstd::arithmetic::power::pow(10, b.len()) + decimal_value(b),
    decreases b.len(),
{
    reveal(vstd::arithmetic::power::pow);
    assert(seq![x].drop_last() =~= Seq::<u8>::empty());
    assert(seq![x].last() == x);
    assert(decimal_value(Seq::<u8>::empty()) == 0);
    assert(decimal_value(seq![x]) == decimal_value(seq![x].drop_last()) * 10 + (x - 48));
    if b.len() == 0 {
        assert(a + b =~= a);
        assert(vstd::arithmetic::power::pow(10, 0) == 1);
    } else {
        let c = b.drop_last();
        lemma_decimal_value_places(a, c, x);
        assert((a + b).drop_last() =~= a + c);
        assert((a + b).last() == b.last());
        let p = vstd::arithmetic::power::pow(10, c.len());
        assert(vstd::arithmetic::power::pow(10, b.len()) == 10 * p);
        let va = decimal_value(a);
        let vc = decimal_value(c);
        let d = b.last() - 48;
        assert((va * p + vc) * 10 + d == va * (10 * p) + (vc * 10 + d)) by (nonlinear_arith);
    }
}

} // verus!
