//! Pre-validation of the inbound transport envelope: the declared
//! `Content-Length` must be present, parseable, and within a fixed bound,
//! before any body bytes are read.
use vstd::prelude::*;

verus! {

use crate::MAX_CONTENT_SIZE;

/// Rejection reasons for the inbound request headers.
#[derive(Debug, Clone, Copy, PartialEq, Eq, Structural)]
pub enum HeaderError {
    /// No `Content-Length` header was supplied.
    MissingContentLength,
    /// The declared length exceeds [`MAX_CONTENT_SIZE`].
    ContentIsTooBig,
    /// The `Content-Length` value is not a decimal number that fits in `u64`.
    CouldNotParseContentLength,
    /// The destination host named by the envelope is not in the allow-list.
    InvalidHost,
}

impl HeaderError {
    /// Human-readable description, used as the client-facing response body.
    pub fn message(&self) -> (r: String)
        ensures
            r@ == match self {
                HeaderError::MissingContentLength => "Missing content length header."@,
                HeaderError::ContentIsTooBig => "Content length too big."@,
                HeaderError::CouldNotParseContentLength => "could not parse content length header."@,
                HeaderError::InvalidHost => "Invalid sentry host, check your config against the dsn used in the request."@,
            },
    {
        match self {
            HeaderError::MissingContentLength => "Missing content length header.".to_owned(),
            HeaderError::ContentIsTooBig => "Content length too big.".to_owned(),
            HeaderError::CouldNotParseContentLength => "could not parse content length header.".to_owned(),
            HeaderError::InvalidHost => "Invalid sentry host, check your config against the dsn used in the request.".to_owned(),
        }
    }
}

/// True for the ASCII bytes `'0'` through `'9'`.
pub open spec fn is_dec_digit(b: u8) -> bool {
    0x30 <= b <= 0x39
}

/// True when every byte of `s` is an ASCII decimal digit.
pub open spec fn all_dec_digits(s: Seq<u8>) -> bool {
    forall|i: int| 0 <= i < s.len() ==> is_dec_digit(#[trigger] s[i])
}

/// Numeric value of a sequence of ASCII decimal digits, most significant first.
pub open spec fn dec_value(s: Seq<u8>) -> nat
    decreases s.len(),
{
    if s.len() == 0 {
        0
    } else {
        dec_value(s.drop_last()) * 10 + (if s.last() >= 0x30 { (s.last() - 0x30) as nat } else { 0 })
    }
}

/// The digit portion of a decimal literal: an optional leading `'+'` is
/// dropped, as `u64` parsing in Rust accepts one.
pub open spec fn dec_digits_of(s: Seq<u8>) -> Seq<u8> {
    if s.len() > 0 && s[0] == 0x2b {
        s.skip(1)
    } else {
        s
    }
}

/// True when `s` is a decimal literal (optionally `'+'`-signed) whose value
/// fits in `u64`.
pub open spec fn parses_as_u64(s: Seq<u8>) -> bool {
    let d = dec_digits_of(s);
    d.len() > 0 && all_dec_digits(d) && dec_value(d) <= u64::MAX
}

/// The value of a prefix of a digit string never exceeds the value of the
/// whole string.
proof fn lemma_dec_value_prefix(s: Seq<u8>, j: int)
    requires
        0 <= j <= s.len(),
    ensures
        dec_value(s.take(j)) <= dec_value(s),
    decreases s.len() - j,
{
    if j == s.len() {
        assert(s.take(j) =~= s);
    } else {
        lemma_dec_value_prefix(s, j + 1);
        assert(s.take(j + 1).drop_last() =~= s.take(j));
        assert(s.take(j + 1).last() == s[j]);
        assert(dec_value(s.take(j + 1)) >= dec_value(s.take(j)) * 10);
        assert(dec_value(s.take(j)) <= dec_value(s.take(j)) * 10) by (nonlinear_arith);
    }
}

/// Appending the digit at index `n` multiplies the prefix value by ten and
/// adds the digit.
proof fn lemma_dec_value_step(d: Seq<u8>, n: int)
    requires
        0 <= n < d.len(),
        is_dec_digit(d[n]),
    ensures
        dec_value(d.take(n + 1)) == dec_value(d.take(n)) * 10 + (d[n] - 0x30),
{
    assert(d.take(n + 1).drop_last() =~= d.take(n));
    assert(d.take(n + 1).last() == d[n]);
}

/// Parses `s` as a decimal `u64`, accepting an optional leading `'+'`,
/// exactly when the digits are well-formed and the value fits.
pub fn parse_u64_decimal(s: &[u8]) -> (r: Option<u64>)
    ensures
        r == if parses_as_u64(s@) {
            Some(dec_value(dec_digits_of(s@)) as u64)
        } else {
            None::<u64>
        },
{
    let ghost d = dec_digits_of(s@);
    let start: usize = if s.len() > 0 && s[0] == 0x2b {
        1
    } else {
        0
    };
    assert(d =~= s@.skip(start as int));
    if s.len() == start {
        return None;
    }
    let mut acc: u64 = 0;
    let mut i: usize = start;
    while i < s.len()
        invariant
            start < s.len(),
            start <= i <= s.len(),
            d == dec_digits_of(s@),
            d == s@.skip(start as int),
            all_dec_digits(d.take(i - start)),
            acc == dec_value(d.take(i - start)),
        decreases s.len() - i,
    {
        let b = s[i];
        if b < 0x30 || b > 0x39 {
            proof {
                assert(d[i - start] == s@[i as int]);
                assert(!is_dec_digit(d[i - start]));
                assert(!all_dec_digits(d));
                assert(!parses_as_u64(s@));
            }
            return None;
        }
        let digit: u64 = (b - 0x30) as u64;
        proof {
            assert(d[i - start] == s@[i as int]);
            lemma_dec_value_step(d, i - start);
        }
        let scaled = match acc.checked_mul(10) {
            Some(v) => v,
            None => {
                proof {
                    assert(dec_value(d.take(i - start + 1)) > u64::MAX);
                    lemma_dec_value_prefix(d, i - start + 1);
                }
                return None;
            },
        };
        let next = match scaled.checked_add(digit) {
            Some(v) => v,
            None => {
                proof {
                    assert(dec_value(d.take(i - start + 1)) > u64::MAX);
                    lemma_dec_value_prefix(d, i - start + 1);
                }
                return None;
            },
        };
        acc = next;
        i = i + 1;
    }
    assert(d.take(i - start) =~= d);
    Some(acc)
}

/// True when `s` is a nonempty run of decimal digits whose value fits in
/// `u64`; no sign is accepted.
pub open spec fn is_u64_digits(s: Seq<u8>) -> bool {
    s.len() > 0 && all_dec_digits(s) && dec_value(s) <= u64::MAX
}

/// Parses a pure-digit decimal `u64`.
pub fn parse_u64_digits(s: &[u8]) -> (r: Option<u64>)
    ensures
        r == if is_u64_digits(s@) {
            Some(dec_value(s@) as u64)
        } else {
            None::<u64>
        },
{
    if s.len() > 0 && s[0] == 0x2b {
        proof {
            assert(!is_dec_digit(s@[0]));
        }
        return None;
    }
    let r = parse_u64_decimal(s);
    proof {
        assert(dec_digits_of(s@) == s@);
    }
    r
}

/// Decides whether a request with the given raw `Content-Length` header value
/// may be handled at all. `None` stands for an absent header. Nothing of the
/// body is needed: the decision rests on the declared length alone.
pub fn check_content_length(content_length: Option<&Vec<u8>>) -> (r: Result<u64, HeaderError>)
    ensures
        match r {
            Ok(n) => content_length matches Some(v) && parses_as_u64(v@)
                && n == dec_value(dec_digits_of(v@)) && n <= MAX_CONTENT_SIZE,
            Err(e) => match e {
                HeaderError::MissingContentLength => content_length is None,
                HeaderError::CouldNotParseContentLength => content_length matches Some(v)
                    && !parses_as_u64(v@),
                HeaderError::ContentIsTooBig => content_length matches Some(v) && parses_as_u64(v@)
                    && dec_value(dec_digits_of(v@)) > MAX_CONTENT_SIZE,
                HeaderError::InvalidHost => false,
            },
        },
{
    match content_length {
        None => Err(HeaderError::MissingContentLength),
        Some(v) => match parse_u64_decimal(v.as_slice()) {
            None => Err(HeaderError::CouldNotParseContentLength),
            Some(n) => {
                if n > MAX_CONTENT_SIZE {
                    Err(HeaderError::ContentIsTooBig)
                } else {
                    Ok(n)
                }
            },
        },
    }
}

} // verus!
