//! Durations written as a clock reads them: `SS`, `MM:SS` or `H:MM:SS`.

use vstd::prelude::*;
use vstd::utf8::encode_utf8;

use crate::text::{
    all_digits, ascii_bytes, digits_value, lemma_dec_padded_value, lemma_split_on_append, lemma_split_on_none,
    unsigned_body, chars_contain, chars_of, dec, dec_padded, parse_unsigned, parse_unsigned_bytes, push_char, push_dec,
    push_dec_padded, push_str, split_chars, split_on, string_from,
};

verus! {

broadcast use vstd::string::group_string_axioms;

/// A count of time units (seconds, or minutes when read as `H:M`), shown
/// like a clock.
#[derive(Clone, Copy, Debug, Default, PartialEq, Eq, Structural, PartialOrd, Ord, Hash)]
pub struct Timelike(pub u32);

/// The clock form: `SS` under a minute, `MM:SS` under an hour, else `H:MM:SS`.
pub open spec fn clock_spec(n: u32) -> Seq<char> {
    if n <= 59 {
        dec_padded(n as nat, 2)
    } else if n <= 3599 {
        dec_padded((n / 60) as nat, 2) + seq![':'] + dec_padded((n % 60) as nat, 2)
    } else {
        dec((n / 3600) as nat) + seq![':'] + dec_padded(((n % 3600) / 60) as nat, 2) + seq![':']
            + dec_padded((n % 60) as nat, 2)
    }
}

/// The value of a piece as a `u32`, as std parses it.
pub open spec fn piece_value(p: Seq<char>) -> Option<nat> {
    parse_unsigned(encode_utf8(p), u32::MAX as nat)
}

/// The message of a text that is neither a count nor a clock reading.
pub open spec fn format_message(t: Seq<char>) -> Seq<char> {
    "Invalid time format: Expected one of %H:%M, %H:%M:%S, or %M:%S, got '"@ + t + "'"@
}

/// The units a text names: a bare count, or `A:B` as `A*60+B`, or `A:B:C`
/// as `A*3600+B*60+C`; `None` when the sum overflows a `u32` (a panic).
pub open spec fn units_spec(t: Seq<char>) -> Option<Result<u32, Seq<char>>> {
    if !t.contains(':') {
        match piece_value(t) {
            Some(v) => Some(Ok(v as u32)),
            None => Some(Err("Invalid time format: Could not parse '"@ + t + "' as seconds"@)),
        }
    } else {
        let ps = split_on(t, ':');
        match (piece_value(ps[0]), piece_value(ps[1])) {
            (Some(a), Some(b)) => if ps.len() >= 3 {
                match piece_value(ps[2]) {
                    Some(c) => if a * 3600 + b * 60 + c > u32::MAX {
                        None
                    } else if ps.len() >= 4 {
                        Some(Err(format_message(t)))
                    } else {
                        Some(Ok((a * 3600 + b * 60 + c) as u32))
                    },
                    None => Some(Err(format_message(t))),
                }
            } else if a * 60 + b > u32::MAX {
                None
            } else {
                Some(Ok((a * 60 + b) as u32))
            },
            _ => Some(Err(format_message(t))),
        }
    }
}

impl Timelike {
    /// The count of units.
    pub fn inner(&self) -> (r: u32)
        ensures
            r == self.0,
    {
        self.0
    }

    /// The clock form (what `Display` writes): `"30"`, `"34:56"`, `"1:00:00"`.
    pub fn to_string(&self) -> (r: String)
        ensures
            r@ == clock_spec(self.0),
    {
        let n = self.0;
        let mut s = String::new();
        if n <= 59 {
            push_dec_padded(&mut s, n as u64, 2);
        } else if n <= 3599 {
            push_dec_padded(&mut s, (n / 60) as u64, 2);
            push_char(&mut s, ':');
            push_dec_padded(&mut s, (n % 60) as u64, 2);
        } else {
            push_dec(&mut s, (n / 3600) as u64);
            push_char(&mut s, ':');
            push_dec_padded(&mut s, ((n % 3600) / 60) as u64, 2);
            push_char(&mut s, ':');
            push_dec_padded(&mut s, (n % 60) as u64, 2);
        }
        s
    }

    /// Reads a count or a clock reading; see [`units_spec`]. The error is the message.
    pub fn from_text(time: &str) -> (r: Result<Timelike, String>)
        requires
            units_spec(time@) is Some,
        ensures
            match units_spec(time@)->Some_0 {
                Ok(v) => r == Ok::<Timelike, String>(Timelike(v)),
                Err(m) => r is Err && r->Err_0@ == m,
            },
    {
        match time_to_units(time) {
            Ok(v) => Ok(Timelike(v)),
            Err(e) => Err(e),
        }
    }
}

/// The value of a piece.
fn piece(p: &Vec<char>) -> (r: Option<u32>)
    ensures
        match piece_value(p@) {
            Some(v) => r == Some(v as u32),
            None => r is None,
        },
{
    let s = string_from(p.as_slice());
    match parse_unsigned_bytes(s.as_str().as_bytes(), u32::MAX as u64) {
        Some(v) => Some(v as u32),
        None => None,
    }
}

/// The units a count or clock reading names; see [`units_spec`].
pub fn time_to_units(time: &str) -> (r: Result<u32, String>)
    requires
        units_spec(time@) is Some,
    ensures
        match units_spec(time@)->Some_0 {
            Ok(v) => r == Ok::<u32, String>(v),
            Err(m) => r is Err && r->Err_0@ == m,
        },
{
    match units_checked(time) {
        Some(r) => r,
        None => Err(format_error(time)),
    }
}

/// The units a count or clock reading names, or `None` when their sum
/// overflows a `u32`; see [`units_spec`].
pub fn units_checked(time: &str) -> (r: Option<Result<u32, String>>)
    ensures
        match units_spec(time@) {
            None => r is None,
            Some(Ok(v)) => r == Some(Ok::<u32, String>(v)),
            Some(Err(m)) => r matches Some(Err(e)) && e@ == m,
        },
{
    let cs = chars_of(time);
    if !chars_contain(cs.as_slice(), ':') {
        return match piece(&cs) {
            Some(v) => Some(Ok(v)),
            None => {
                let mut m = "Invalid time format: Could not parse '".to_owned();
                push_str(&mut m, time);
                push_str(&mut m, "' as seconds");
                Some(Err(m))
            },
        };
    }
    let ps = split_chars(cs.as_slice(), ':');
    proof {
        lemma_split_has_two(cs@, ':');
    }
    let a = piece(&ps[0]);
    let b = piece(&ps[1]);
    match (a, b) {
        (Some(a), Some(b)) => {
            if ps.len() >= 3 {
                match piece(&ps[2]) {
                    Some(c) => {
                        let units = a as u64 * 3600 + b as u64 * 60 + c as u64;
                        if units > u32::MAX as u64 {
                            return None;
                        }
                        if ps.len() >= 4 {
                            return Some(Err(format_error(time)));
                        }
                        Some(Ok(units as u32))
                    },
                    None => Some(Err(format_error(time))),
                }
            } else {
                let units = a as u64 * 60 + b as u64;
                if units > u32::MAX as u64 {
                    return None;
                }
                Some(Ok(units as u32))
            }
        },
        _ => Some(Err(format_error(time))),
    }
}

/// The message of a malformed clock reading.
fn format_error(time: &str) -> (r: String)
    ensures
        r@ == format_message(time@),
{
    let mut m = "Invalid time format: Expected one of %H:%M, %H:%M:%S, or %M:%S, got '".to_owned();
    push_str(&mut m, time);
    push_str(&mut m, "'");
    m
}

/// A text holding the delimiter splits into at least two pieces.
proof fn lemma_split_has_two(cs: Seq<char>, d: char)
    requires
        cs.contains(d),
    ensures
        split_on(cs, d).len() >= 2,
    decreases cs.len(),
{
    crate::text::lemma_split_on_nonempty(cs.drop_last(), d);
    if cs.last() != d {
        let i = choose|i: int| 0 <= i < cs.len() && cs[i] == d;
        assert(cs.drop_last()[i] == d);
        lemma_split_has_two(cs.drop_last(), d);
    }
}

/// Digits hold no `:`.
proof fn lemma_digits_no_colon(p: Seq<char>)
    requires
        forall|i: int| 0 <= i < p.len() ==> '0' <= #[trigger] p[i] <= '9',
    ensures
        !p.contains(':'),
{
    if p.contains(':') {
        let i = choose|i: int| 0 <= i < p.len() && p[i] == ':';
        assert('0' <= p[i] <= '9');
    }
}

/// The padded rendering of `n` reads back as `n` when `n` fits a `u32`.
proof fn lemma_piece_value(n: nat, w: nat)
    requires
        n <= u32::MAX,
    ensures
        piece_value(dec_padded(n, w)) == Some(n),
        !dec_padded(n, w).contains(':'),
{
    lemma_dec_padded_value(n, w);
    let b = ascii_bytes(dec_padded(n, w));
    assert(b[0] == dec_padded(n, w)[0] as u8);
    assert(unsigned_body(b) == b);
    lemma_digits_no_colon(dec_padded(n, w));
}

/// The clock form of a count under a minute reads back as that count.
proof fn lemma_clock_seconds(n: u32)
    requires
        n <= 59,
    ensures
        units_spec(clock_spec(n)) == Some(Ok::<u32, Seq<char>>(n)),
{
    lemma_piece_value(n as nat, 2);
}

/// The `MM:SS` form of a count under an hour reads back as that count.
proof fn lemma_clock_minutes(n: u32)
    requires
        59 < n <= 3599,
    ensures
        units_spec(clock_spec(n)) == Some(Ok::<u32, Seq<char>>(n)),
{
    let a = dec_padded((n / 60) as nat, 2);
    let b = dec_padded((n % 60) as nat, 2);
    lemma_piece_value((n / 60) as nat, 2);
    lemma_piece_value((n % 60) as nat, 2);
    let t = a + seq![':'] + b;
    assert(t[a.len() as int] == ':');
    lemma_split_on_append(a, ':', b);
    lemma_split_on_none(a, ':');
    assert(split_on(t, ':') =~= seq![a, b]);
}

/// The `H:MM:SS` form of a count of an hour or more reads back as that count.
#[verifier::spinoff_prover]
proof fn lemma_clock_hours(n: u32)
    requires
        3599 < n,
    ensures
        units_spec(clock_spec(n)) == Some(Ok::<u32, Seq<char>>(n)),
{
    let a = dec((n / 3600) as nat);
    let b = dec_padded(((n % 3600) / 60) as nat, 2);
    let c = dec_padded((n % 60) as nat, 2);
    assert(dec_padded((n / 3600) as nat, 0) == a);
    lemma_piece_value((n / 3600) as nat, 0);
    lemma_piece_value(((n % 3600) / 60) as nat, 2);
    lemma_piece_value((n % 60) as nat, 2);
    let ab = a + seq![':'] + b;
    let t = ab + seq![':'] + c;
    assert(clock_spec(n) == t);
    assert(t[a.len() as int] == ':');
    lemma_split_on_none(a, ':');
    lemma_split_on_append(a, ':', b);
    lemma_split_on_append(ab, ':', c);
    assert(split_on(t, ':') =~= seq![a, b, c]);
    assert((n / 3600) * 3600 + ((n % 3600) / 60) * 60 + n % 60 == n);
}

/// Law: the clock form of a count reads back as the same count.
pub proof fn law_clock_roundtrip(n: u32)
    ensures
        units_spec(clock_spec(n)) == Some(Ok::<u32, Seq<char>>(n)),
{
    if n <= 59 {
        lemma_clock_seconds(n);
    } else if n <= 3599 {
        lemma_clock_minutes(n);
    } else {
        lemma_clock_hours(n);
    }
}

} // verus!
