//! Reading a timestamp whose unit is not stated: RFC 3339 text, or a count
//! of seconds, milliseconds, microseconds or nanoseconds told apart by its
//! number of digits.

use vstd::prelude::*;
use vstd::utf8::encode_utf8;

use crate::primitives::large_number::ten_pow;
use crate::text::{all_digits, dec, digits_value, parse_unsigned, parse_unsigned_bytes, push_dec, push_str, unsigned_body};

verus! {

broadcast use vstd::string::group_string_axioms;

/// `jiff::Timestamp`, opaque here.
#[verifier::external_type_specification]
#[verifier::external_body]
pub struct ExTimestamp(jiff::Timestamp);

/// The instant jiff's `Timestamp` parser reads from a text, in nanoseconds
/// since the Unix epoch; `None` when it does not parse.
pub uninterp spec fn timestamp_text_nanos(s: Seq<char>) -> Option<int>;

/// The instant of a jiff `Timestamp` in nanoseconds since the Unix epoch,
/// as `Timestamp::as_nanosecond` gives it.
pub uninterp spec fn timestamp_nanos(t: jiff::Timestamp) -> i128;

/// `s.parse::<jiff::Timestamp>()`, with the instant's nanoseconds since the
/// epoch (`Timestamp::as_nanosecond`); claimed: the result depends on the
/// text alone.
#[verifier::external_body]
fn parse_timestamp(s: &str) -> (r: Option<(jiff::Timestamp, i128)>)
    ensures
        r matches Some(p) ==> timestamp_text_nanos(s@) == Some(p.1 as int),
        r matches Some(p) ==> timestamp_nanos(p.0) == p.1,
        r is None ==> timestamp_text_nanos(s@) is None,
{
    match s.parse::<jiff::Timestamp>() {
        Ok(t) => Some((t, t.as_nanosecond())),
        Err(_) => None,
    }
}

/// `jiff::Timestamp::from_nanosecond`, for a count of nanoseconds no larger
/// than a `u64` holds (well inside jiff's range, so it does not fail); the
/// timestamp's `as_nanosecond` gives that count back.
#[verifier::external_body]
fn timestamp_from_nanos(n: u64) -> (r: jiff::Timestamp)
    ensures
        timestamp_nanos(r) == n as i128,
{
    jiff::Timestamp::from_nanosecond(n as i128).unwrap()
}

/// The nanoseconds a count stands for, by its length in bytes: 10 for
/// seconds, 13 for milliseconds, 16 for microseconds, 19 for nanoseconds.
pub open spec fn scaled_nanos(num: nat, len: nat) -> Option<nat> {
    if len == 10 {
        Some(num * 1_000_000_000)
    } else if len == 13 {
        Some(num * 1_000_000)
    } else if len == 16 {
        Some(num * 1_000)
    } else if len == 19 {
        Some(num)
    } else {
        None
    }
}

/// What a timestamp text stands for: the instant of RFC 3339 text; else a
/// count told apart by its length (see [`scaled_nanos`]), or why not.
pub open spec fn guess_spec(s: Seq<char>) -> Result<int, Seq<char>> {
    match timestamp_text_nanos(s) {
        Some(n) => Ok(n),
        None => match parse_unsigned(encode_utf8(s), u64::MAX as nat) {
            Some(num) => match scaled_nanos(num, encode_utf8(s).len()) {
                Some(n) => Ok(n as int),
                None => Err("Invalid timestamp length for guessing: "@ + dec(encode_utf8(s).len()) + "\nTimestamp: "@ + s),
            },
            None => Err("Couldn't parse timestamp: "@ + s),
        },
    }
}

/// Decimal digits below `10^n` hold a value below `10^n`.
proof fn lemma_digits_below(s: Seq<u8>)
    requires
        all_digits(s),
    ensures
        digits_value(s) < ten_pow(s.len()),
    decreases s.len(),
{
    if s.len() > 0 {
        lemma_digits_below(s.drop_last());
        assert(all_digits(s.drop_last()));
    }
}

/// The instant a timestamp text stands for, in nanoseconds since the epoch;
/// see [`guess_spec`].
pub fn guess_timestamp_nanos(timestamp: &str) -> (r: Result<i128, String>)
    ensures
        match guess_spec(timestamp@) {
            Ok(n) => r == Ok::<i128, String>(n as i128),
            Err(m) => r is Err && r->Err_0@ == m,
        },
{
    match parse_timestamp(timestamp) {
        Some(p) => return Ok(p.1),
        None => {},
    }
    let bytes = timestamp.as_bytes();
    match parse_unsigned_bytes(bytes, u64::MAX) {
        Some(num) => {
            let len = bytes.len();
            proof {
                let body = unsigned_body(encode_utf8(timestamp@));
                lemma_digits_below(body);
                assert(ten_pow(0) == 1);
                assert(ten_pow(9) == 1_000_000_000) by {
                    reveal_with_fuel(ten_pow, 10);
                }
                assert(ten_pow(10) == 10_000_000_000) by {
                    reveal_with_fuel(ten_pow, 11);
                }
                assert(ten_pow(12) == 1_000_000_000_000) by {
                    reveal_with_fuel(ten_pow, 13);
                }
                assert(ten_pow(13) == 10_000_000_000_000) by {
                    reveal_with_fuel(ten_pow, 14);
                }
                assert(ten_pow(15) == 1_000_000_000_000_000) by {
                    reveal_with_fuel(ten_pow, 16);
                }
                assert(ten_pow(16) == 10_000_000_000_000_000) by {
                    reveal_with_fuel(ten_pow, 17);
                }
            }
            let nanos: u64 = if len == 10 {
                num * 1_000_000_000
            } else if len == 13 {
                num * 1_000_000
            } else if len == 16 {
                num * 1_000
            } else if len == 19 {
                num
            } else {
                let mut m = "Invalid timestamp length for guessing: ".to_owned();
                push_dec(&mut m, len as u64);
                push_str(&mut m, "\nTimestamp: ");
                push_str(&mut m, timestamp);
                proof {
                    reveal_strlit("Invalid timestamp length for guessing: ");
                    reveal_strlit("\nTimestamp: ");
                }
                return Err(m);
            };
            Ok(nanos as i128)
        },
        None => {
            let mut m = "Couldn't parse timestamp: ".to_owned();
            push_str(&mut m, timestamp);
            Err(m)
        },
    }
}

/// Reads a timestamp whose unit is not stated: RFC 3339 text, else a count
/// of seconds, milliseconds, microseconds or nanoseconds by its length (see
/// [`guess_timestamp_nanos`] for the instant). The error is the message.
/// Negative counts are not read.
pub fn guess_timestamp_unsafe(timestamp: String) -> (r: Result<jiff::Timestamp, String>)
    ensures
        r is Ok <==> guess_spec(timestamp@) is Ok,
        guess_spec(timestamp@) matches Err(m) ==> r is Err && r->Err_0@ == m,
        r matches Ok(t) ==> guess_spec(timestamp@) == Ok::<int, Seq<char>>(timestamp_nanos(t) as int),
{
    match parse_timestamp(timestamp.as_str()) {
        Some(p) => return Ok(p.0),
        None => {},
    }
    match guess_timestamp_nanos(timestamp.as_str()) {
        Ok(n) => {
            proof {
                let num = parse_unsigned(encode_utf8(timestamp@), u64::MAX as nat);
                assert(num is Some);
                lemma_scaled_fits(timestamp@);
            }
            Ok(timestamp_from_nanos(n as u64))
        },
        Err(m) => Err(m),
    }
}

/// A count read by its length fits a `u64` of nanoseconds.
proof fn lemma_scaled_fits(s: Seq<char>)
    requires
        parse_unsigned(encode_utf8(s), u64::MAX as nat) is Some,
        scaled_nanos(parse_unsigned(encode_utf8(s), u64::MAX as nat)->0, encode_utf8(s).len()) is Some,
    ensures
        scaled_nanos(parse_unsigned(encode_utf8(s), u64::MAX as nat)->0, encode_utf8(s).len())->0 <= u64::MAX,
{
    let b = encode_utf8(s);
    let body = unsigned_body(b);
    lemma_digits_below(body);
    assert(body.len() <= b.len());
    lemma_ten_pow_monotone(body.len(), b.len());
    assert(ten_pow(9) == 1_000_000_000) by {
        reveal_with_fuel(ten_pow, 10);
    }
    assert(ten_pow(10) == 10_000_000_000) by {
        reveal_with_fuel(ten_pow, 11);
    }
    assert(ten_pow(13) == 10_000_000_000_000) by {
        reveal_with_fuel(ten_pow, 14);
    }
    assert(ten_pow(16) == 10_000_000_000_000_000) by {
        reveal_with_fuel(ten_pow, 17);
    }
}

/// Powers of ten grow.
proof fn lemma_ten_pow_monotone(a: nat, b: nat)
    requires
        a <= b,
    ensures
        ten_pow(a) <= ten_pow(b),
    decreases b,
{
    if a < b {
        lemma_ten_pow_monotone(a, (b - 1) as nat);
    }
}

} // verus!
