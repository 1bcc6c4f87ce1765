//! The two application endpoints: the fixed greeting and the
//! artificial-delay echo, including validation of the delay parameter.

use vstd::prelude::*;
use vstd::string::StringExecFns;
use crate::decimal::{all_digits, dec_digits, dec_value, u64_to_dec, lemma_dec_value_prefix_le};

verus! {

/// Body of the greeting endpoint: a fixed HTML fragment.
pub fn greeting_body() -> (r: &'static str)
    ensures
        r@ == "<h1>Hello, World!</h1>"@,
{
    "<h1>Hello, World!</h1>"
}

/// The full decision of the greeting endpoint: always status 200 with the
/// fixed body.
pub fn greeting_response() -> (r: (u16, &'static str))
    ensures
        r.0 == 200,
        r.1@ == "<h1>Hello, World!</h1>"@,
{
    (200, greeting_body())
}

/// Largest delay, in milliseconds, that the delay endpoint accepts.
pub const MAX_DELAY_MILLIS: u64 = 30000;

/// Why a delay parameter was rejected: not a plain decimal number, or a
/// value beyond the accepted range.
#[derive(Clone, Copy, PartialEq, Eq, Structural, Debug)]
pub enum DelayError {
    Malformed,
    OutOfRange,
}

/// Parses the raw path parameter of the delay endpoint as a decimal number
/// of milliseconds. Only unsigned decimal digit strings whose value is at
/// most `MAX_DELAY_MILLIS` are accepted; anything else (empty, signed,
/// non-numeric) is `Malformed`, and a numeric value beyond the bound is
/// `OutOfRange`.
pub fn parse_delay_millis(s: &[u8]) -> (r: Result<u64, DelayError>)
    ensures
        match r {
            Ok(v) => s@.len() > 0 && all_digits(s@) && dec_value(s@) <= MAX_DELAY_MILLIS && v
                == dec_value(s@),
            Err(DelayError::Malformed) => s@.len() == 0 || !all_digits(s@),
            Err(DelayError::OutOfRange) => s@.len() > 0 && all_digits(s@) && dec_value(s@)
                > MAX_DELAY_MILLIS,
        },
{
    let n = s.len();
    if n == 0 {
        return Err(DelayError::Malformed);
    }
    let mut i: usize = 0;
    while i < n
        invariant
            n == s@.len(),
            i <= n,
            forall|j: int| 0 <= j < i ==> crate::decimal::is_digit_byte(#[trigger] s@[j]),
        decreases n - i,
    {
        let b = s[i];
        if b < 48 || b > 57 {
            return Err(DelayError::Malformed);
        }
        i += 1;
    }
    assert(all_digits(s@));
    let mut acc: u64 = 0;
    let mut i: usize = 0;
    while i < n
        invariant
            n == s@.len(),
            i <= n,
            all_digits(s@),
            acc <= MAX_DELAY_MILLIS,
            acc == dec_value(s@.take(i as int)),
        decreases n - i,
    {
        let d = s[i] - 48;
        acc = acc * 10 + (d as u64);
        i += 1;
        proof {
            assert(s@.take(i as int).drop_last() =~= s@.take(i as int - 1));
        }
        if acc > MAX_DELAY_MILLIS {
            proof {
                lemma_dec_value_prefix_le(s@, i as int, n as int);
                assert(s@.take(n as int) =~= s@);
            }
            return Err(DelayError::OutOfRange);
        }
    }
    proof {
        assert(s@.take(n as int) =~= s@);
    }
    Ok(acc)
}

/// Body of a successful delay response, echoing the delay value.
pub fn delay_body(millis: u64) -> (r: String)
    ensures
        r@ == "<p>Delayed for <em>"@ + dec_digits(millis as nat) + "</em> milliseconds</p>"@,
{
    let mut s = "<p>Delayed for <em>".to_owned();
    let num = u64_to_dec(millis);
    s.append(num.as_str());
    s.append("</em> milliseconds</p>");
    s
}

/// Body of a rejected delay request.
pub fn delay_error_body(e: &DelayError) -> (r: &'static str)
    ensures
        r@ == (match e {
            DelayError::Malformed => "<p>invalid delay parameter</p>"@,
            DelayError::OutOfRange => "<p>delay parameter out of range</p>"@,
        }),
{
    match e {
        DelayError::Malformed => "<p>invalid delay parameter</p>",
        DelayError::OutOfRange => "<p>delay parameter out of range</p>",
    }
}

/// The full decision of the delay endpoint for a raw path parameter: how
/// long to suspend (`None` when the parameter is rejected), the response
/// status and the response body.
pub fn delay_response(param: &[u8]) -> (r: (Option<u64>, u16, String))
    ensures
        param@.len() > 0 && all_digits(param@) && dec_value(param@) <= MAX_DELAY_MILLIS ==> {
            &&& r.0 == Some(dec_value(param@) as u64)
            &&& r.1 == 200
            &&& r.2@ == "<p>Delayed for <em>"@ + dec_digits(dec_value(param@) as nat)
                + "</em> milliseconds</p>"@
        },
        (param@.len() == 0 || !all_digits(param@)) ==> {
            &&& r.0 is None
            &&& r.1 == 400
            &&& r.2@ == "<p>invalid delay parameter</p>"@
        },
        param@.len() > 0 && all_digits(param@) && dec_value(param@) > MAX_DELAY_MILLIS ==> {
            &&& r.0 is None
            &&& r.1 == 400
            &&& r.2@ == "<p>delay parameter out of range</p>"@
        },
{
    match parse_delay_millis(param) {
        Ok(ms) => {
            let body = delay_body(ms);
            (Some(ms), 200, body)
        },
        Err(e) => {
            let body = delay_error_body(&e).to_owned();
            (None, 400, body)
        },
    }
}

} // verus!
