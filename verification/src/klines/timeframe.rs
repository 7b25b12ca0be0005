//! Timeframes counted in seconds: a count and a unit, written as `"5s"` or
//! `"3M"`, and checked against what each exchange accepts.

use vstd::prelude::*;
use vstd::string::StringSliceAdditionalSpecFns;
use vstd::utf8::is_char_boundary;

use crate::text::{
    ascii_bytes, dec, dec_chars, lemma_ascii_encoding, lemma_dec_shape, lemma_dec_value, parse_unsigned, parse_unsigned_bytes,
    push_str, str_eq, string_from,
};

verus! {

broadcast use vstd::string::group_string_axioms;

/// The unit of a timeframe. A month is taken as 30 days.
#[derive(Clone, Copy, Debug, PartialEq, Eq, Structural)]
pub enum TimeframeDesignator {
    Seconds,
    Minutes,
    Hours,
    Days,
    Weeks,
    Months,
}

/// `chrono::TimeDelta`, opaque here.
#[verifier::external_type_specification]
#[verifier::external_body]
pub struct ExTimeDelta(chrono::TimeDelta);

/// What chrono's `TimeDelta::seconds` gives for a count of seconds.
pub uninterp spec fn seconds_time_delta(secs: i64) -> chrono::TimeDelta;

/// chrono's `TimeDelta::seconds`: the span of `secs` seconds. It panics beyond
/// `±i64::MAX / 1000` seconds, which `requires` leaves out. The span is opaque
/// here, so the contract names the value rather than describing it.
#[verifier::external_body]
fn time_delta_seconds(secs: i64) -> (r: chrono::TimeDelta)
    requires
        -(i64::MAX / 1000) <= secs <= i64::MAX / 1000,
    ensures
        r == seconds_time_delta(secs),
{
    chrono::TimeDelta::seconds(secs)
}

impl TimeframeDesignator {
    pub open spec fn spec_as_seconds(&self) -> usize {
        match *self {
            TimeframeDesignator::Seconds => 1,
            TimeframeDesignator::Minutes => 60,
            TimeframeDesignator::Hours => 3600,
            TimeframeDesignator::Days => 86_400,
            TimeframeDesignator::Weeks => 604_800,
            TimeframeDesignator::Months => 2_592_000,
        }
    }

    /// The Binance letter of the unit.
    pub open spec fn spec_as_str(self) -> Seq<char> {
        match self {
            TimeframeDesignator::Seconds => seq!['s'],
            TimeframeDesignator::Minutes => seq!['m'],
            TimeframeDesignator::Hours => seq!['h'],
            TimeframeDesignator::Days => seq!['d'],
            TimeframeDesignator::Weeks => seq!['w'],
            TimeframeDesignator::Months => seq!['M'],
        }
    }

    /// The Bybit suffix of the unit (minutes have none); seconds and hours have none.
    pub open spec fn spec_as_str_bybit(self) -> Seq<char> {
        match self {
            TimeframeDesignator::Days => seq!['D'],
            TimeframeDesignator::Weeks => seq!['W'],
            TimeframeDesignator::Months => seq!['M'],
            _ => Seq::empty(),
        }
    }

    /// The unit a one-letter text names; every letter may be in either case
    /// except `s`, `m` (minutes) and `M` (months).
    pub open spec fn from_chars(s: Seq<char>) -> Option<TimeframeDesignator> {
        if s == seq!['s'] {
            Some(TimeframeDesignator::Seconds)
        } else if s == seq!['m'] {
            Some(TimeframeDesignator::Minutes)
        } else if s == seq!['h'] || s == seq!['H'] {
            Some(TimeframeDesignator::Hours)
        } else if s == seq!['d'] || s == seq!['D'] {
            Some(TimeframeDesignator::Days)
        } else if s == seq!['w'] || s == seq!['W'] {
            Some(TimeframeDesignator::Weeks)
        } else if s == seq!['M'] {
            Some(TimeframeDesignator::Months)
        } else {
            None
        }
    }

    /// Length of the unit in seconds.
    #[verifier::when_used_as_spec(spec_as_seconds)]
    pub fn as_seconds(&self) -> (r: usize)
        ensures
            r == self.spec_as_seconds(),
    {
        match self {
            TimeframeDesignator::Seconds => 1,
            TimeframeDesignator::Minutes => 60,
            TimeframeDesignator::Hours => 3600,
            TimeframeDesignator::Days => 86_400,
            TimeframeDesignator::Weeks => 604_800,
            TimeframeDesignator::Months => 2_592_000,
        }
    }

    /// Reads a unit letter; the error names the text refused.
    pub fn from_str(s: &str) -> (r: Result<TimeframeDesignator, String>)
        ensures
            match Self::from_chars(s@) {
                Some(d) => r == Ok::<TimeframeDesignator, String>(d),
                None => r is Err && r->Err_0@ == "Invalid timeframe designator: "@ + s@,
            },
    {
        proof {
            reveal_strlit("s");
            reveal_strlit("m");
            reveal_strlit("h");
            reveal_strlit("H");
            reveal_strlit("d");
            reveal_strlit("D");
            reveal_strlit("w");
            reveal_strlit("W");
            reveal_strlit("M");
            assert("s"@ =~= seq!['s']);
            assert("m"@ =~= seq!['m']);
            assert("h"@ =~= seq!['h']);
            assert("H"@ =~= seq!['H']);
            assert("d"@ =~= seq!['d']);
            assert("D"@ =~= seq!['D']);
            assert("w"@ =~= seq!['w']);
            assert("W"@ =~= seq!['W']);
            assert("M"@ =~= seq!['M']);
        }
        if str_eq(s, "s") {
            Ok(TimeframeDesignator::Seconds)
        } else if str_eq(s, "m") {
            Ok(TimeframeDesignator::Minutes)
        } else if str_eq(s, "h") || str_eq(s, "H") {
            Ok(TimeframeDesignator::Hours)
        } else if str_eq(s, "d") || str_eq(s, "D") {
            Ok(TimeframeDesignator::Days)
        } else if str_eq(s, "w") || str_eq(s, "W") {
            Ok(TimeframeDesignator::Weeks)
        } else if str_eq(s, "M") {
            Ok(TimeframeDesignator::Months)
        } else {
            let mut msg = "Invalid timeframe designator: ".to_owned();
            push_str(&mut msg, s);
            Err(msg)
        }
    }

    /// The unit's letter, as Binance writes it.
    pub fn as_str(&self) -> (r: &'static str)
        ensures
            r@ == self.spec_as_str(),
    {
        self.as_str_binance()
    }

    /// The unit's letter, as Binance writes it.
    pub fn as_str_binance(&self) -> (r: &'static str)
        ensures
            r@ == self.spec_as_str(),
    {
        match self {
            TimeframeDesignator::Seconds => {
                proof { reveal_strlit("s"); }
                "s"
            },
            TimeframeDesignator::Minutes => {
                proof { reveal_strlit("m"); }
                "m"
            },
            TimeframeDesignator::Hours => {
                proof { reveal_strlit("h"); }
                "h"
            },
            TimeframeDesignator::Days => {
                proof { reveal_strlit("d"); }
                "d"
            },
            TimeframeDesignator::Weeks => {
                proof { reveal_strlit("w"); }
                "w"
            },
            TimeframeDesignator::Months => {
                proof { reveal_strlit("M"); }
                "M"
            },
        }
    }

    /// The unit's suffix as Bybit writes it; Bybit has no seconds or hours.
    pub fn as_str_bybit(&self) -> (r: &'static str)
        requires
            *self != TimeframeDesignator::Seconds,
            *self != TimeframeDesignator::Hours,
        ensures
            r@ == self.spec_as_str_bybit(),
    {
        match self {
            TimeframeDesignator::Minutes => {
                proof { reveal_strlit(""); }
                ""
            },
            TimeframeDesignator::Days => {
                proof { reveal_strlit("D"); }
                "D"
            },
            TimeframeDesignator::Weeks => {
                proof { reveal_strlit("W"); }
                "W"
            },
            _ => {
                proof { reveal_strlit("M"); }
                "M"
            },
        }
    }
}

/// A timeframe: `n` units of `designator`.
#[derive(Clone, Copy, Debug, PartialEq, Eq, Structural)]
pub struct Timeframe {
    pub designator: TimeframeDesignator,
    pub n: usize,
}

/// The timeframes Binance's kline API accepts.
pub open spec fn binance_values() -> Seq<Seq<char>> {
    seq![
        "1s"@, "5s"@, "15s"@, "30s"@, "1m"@, "3m"@, "5m"@, "15m"@, "30m"@, "1h"@, "2h"@, "4h"@,
        "6h"@, "8h"@, "12h"@, "1d"@, "3d"@, "1w"@, "1M"@,
    ]
}

/// The timeframes Bybit's kline API accepts.
pub open spec fn bybit_values() -> Seq<Seq<char>> {
    seq!["1"@, "3"@, "5"@, "15"@, "30"@, "60"@, "120"@, "240"@, "360"@, "720"@, "D"@, "W"@, "M"@]
}

/// How Bybit writes a timeframe: one unit of days, weeks or months is the bare
/// letter; otherwise the count, then the suffix.
pub open spec fn bybit_spec(tf: Timeframe) -> Seq<char> {
    if tf.n == 1 && tf.designator != TimeframeDesignator::Minutes {
        tf.designator.spec_as_str_bybit()
    } else {
        dec(tf.n as nat) + tf.designator.spec_as_str_bybit()
    }
}

/// Whether `s` is one of `values`.
fn is_listed(s: &str, values: &Vec<&'static str>) -> (r: bool)
    ensures
        r == values@.map_values(|v: &str| v@).contains(s@),
{
    let ghost vs = values@.map_values(|v: &str| v@);
    let mut i: usize = 0;
    while i < values.len()
        invariant
            i <= values@.len(),
            vs == values@.map_values(|v: &str| v@),
            forall|k: int| 0 <= k < i ==> vs[k] != s@,
        decreases values@.len() - i,
    {
        if str_eq(s, values[i]) {
            assert(vs[i as int] == s@);
            return true;
        }
        i = i + 1;
    }
    false
}

impl Timeframe {
    /// Length of the timeframe in seconds.
    pub fn as_seconds(&self) -> (r: usize)
        requires
            self.n * self.designator.spec_as_seconds() <= usize::MAX,
        ensures
            r == self.n * self.designator.spec_as_seconds(),
    {
        self.n * self.designator.as_seconds()
    }

    /// The timeframe as a chrono span of its seconds (taken as an `i64`).
    pub fn duration(&self) -> (d: chrono::TimeDelta)
        requires
            self.n * self.designator.spec_as_seconds() <= usize::MAX,
            -(i64::MAX / 1000) <= ((self.n * self.designator.spec_as_seconds()) as usize) as i64 <= i64::MAX / 1000,
        ensures
            d == seconds_time_delta(((self.n * self.designator.spec_as_seconds()) as usize) as i64),
    {
        let secs = self.as_seconds();
        time_delta_seconds(secs as i64)
    }

    /// The count followed by the unit's letter, as `"5s"`.
    pub fn display(&self) -> (r: String)
        ensures
            r@ == dec(self.n as nat) + self.designator.spec_as_str(),
    {
        let digits = dec_chars(self.n as u64);
        let mut s = string_from(digits.as_slice());
        push_str(&mut s, self.designator.as_str());
        s
    }

    /// The timeframe as Binance writes it, if Binance accepts it; the error
    /// names the refused text.
    pub fn format_binance(&self) -> (r: Result<String, String>)
        ensures
            ({
                let tf = dec(self.n as nat) + self.designator.spec_as_str();
                if binance_values().contains(tf) {
                    r is Ok && r->Ok_0@ == tf
                } else {
                    r is Err && r->Err_0@ == "The Timeframe '"@ + tf
                        + "' does not match exactly any of the values accepted by Binance API"@
                }
            }),
    {
        let tf_string = self.display();
        let mut valid: Vec<&'static str> = Vec::new();
        valid.push("1s"); valid.push("5s"); valid.push("15s"); valid.push("30s"); valid.push("1m");
        valid.push("3m"); valid.push("5m"); valid.push("15m"); valid.push("30m"); valid.push("1h");
        valid.push("2h"); valid.push("4h"); valid.push("6h"); valid.push("8h"); valid.push("12h");
        valid.push("1d"); valid.push("3d"); valid.push("1w"); valid.push("1M");
        assert(valid@.map_values(|v: &str| v@) =~= binance_values());
        if !is_listed(tf_string.as_str(), &valid) {
            let mut msg = "The Timeframe '".to_owned();
            push_str(&mut msg, tf_string.as_str());
            push_str(&mut msg, "' does not match exactly any of the values accepted by Binance API");
            return Err(msg);
        }
        Ok(tf_string)
    }

    /// The timeframe as Bybit writes it, if Bybit accepts it; the error names
    /// the refused text. Bybit has no seconds or hours.
    pub fn format_bybit(&self) -> (r: Result<String, String>)
        requires
            self.designator != TimeframeDesignator::Seconds,
            self.designator != TimeframeDesignator::Hours,
        ensures
            if bybit_values().contains(bybit_spec(*self)) {
                r is Ok && r->Ok_0@ == bybit_spec(*self)
            } else {
                r is Err && r->Err_0@ == "The Timeframe does not match exactly any of the values accepted by Bybit API: "@
                    + bybit_spec(*self)
            },
    {
        let tf_string = if self.n == 1 && self.designator != TimeframeDesignator::Minutes {
            self.designator.as_str_bybit().to_owned()
        } else {
            let digits = dec_chars(self.n as u64);
            let mut s = string_from(digits.as_slice());
            push_str(&mut s, self.designator.as_str_bybit());
            s
        };
        let mut valid: Vec<&'static str> = Vec::new();
        valid.push("1"); valid.push("3"); valid.push("5"); valid.push("15"); valid.push("30");
        valid.push("60"); valid.push("120"); valid.push("240"); valid.push("360"); valid.push("720");
        valid.push("D"); valid.push("W"); valid.push("M");
        assert(valid@.map_values(|v: &str| v@) =~= bybit_values());
        if !is_listed(tf_string.as_str(), &valid) {
            let mut msg = "The Timeframe does not match exactly any of the values accepted by Bybit API: ".to_owned();
            push_str(&mut msg, tf_string.as_str());
            return Err(msg);
        }
        Ok(tf_string)
    }
}

/// Why a timeframe text was refused.
#[derive(Clone, Copy, Debug, PartialEq, Eq, Structural)]
pub enum TimeframeParseError {
    /// The count is not a decimal `usize`.
    InvalidNumber,
    /// The last character names no unit.
    InvalidDesignator,
}

/// The timeframe a text names: its last byte is the unit letter, what comes
/// before is the count (none means 1).
pub open spec fn parse_spec(b: Seq<u8>) -> Result<Timeframe, TimeframeParseError> {
    let n_b = b.subrange(0, b.len() - 1);
    let d_b = b.subrange(b.len() - 1, b.len() as int);
    let n: Option<nat> = if n_b.len() == 0 {
        Some(1)
    } else {
        parse_unsigned(n_b, usize::MAX as nat)
    };
    match n {
        None => Err(TimeframeParseError::InvalidNumber),
        Some(n) => match designator_of_byte(d_b) {
            Some(d) => Ok(Timeframe { designator: d, n: n as usize }),
            None => Err(TimeframeParseError::InvalidDesignator),
        },
    }
}

/// The unit one byte names (see [`TimeframeDesignator::from_chars`]).
pub open spec fn designator_of_byte(b: Seq<u8>) -> Option<TimeframeDesignator> {
    if b.len() != 1 {
        None
    } else {
        let c = b[0];
        if c == 's' as u8 {
            Some(TimeframeDesignator::Seconds)
        } else if c == 'm' as u8 {
            Some(TimeframeDesignator::Minutes)
        } else if c == 'h' as u8 || c == 'H' as u8 {
            Some(TimeframeDesignator::Hours)
        } else if c == 'd' as u8 || c == 'D' as u8 {
            Some(TimeframeDesignator::Days)
        } else if c == 'w' as u8 || c == 'W' as u8 {
            Some(TimeframeDesignator::Weeks)
        } else if c == 'M' as u8 {
            Some(TimeframeDesignator::Months)
        } else {
            None
        }
    }
}

impl Timeframe {
    /// Reads a timeframe such as `"5s"` or `"M"`: the last character is the
    /// unit, what precedes it the count. The text must end in a one-byte
    /// character (splitting before a wider one panics).
    pub fn parse(s: &str) -> (r: Result<Timeframe, TimeframeParseError>)
        requires
            s.spec_bytes().len() >= 1,
            is_char_boundary(s.spec_bytes(), s.spec_bytes().len() - 1),
        ensures
            r == parse_spec(s.spec_bytes()),
    {
        let b = s.as_bytes();
        let (n_str, d_str) = s.split_at(b.len() - 1);
        let n: usize = if n_str.is_empty() {
            proof {
                crate::text::lemma_encode_empty(n_str@);
            }
            1
        } else {
            proof {
                crate::text::lemma_encode_empty(n_str@);
            }
            match parse_unsigned_bytes(n_str.as_bytes(), usize::MAX as u64) {
                Some(v) => v as usize,
                None => {
                    return Err(TimeframeParseError::InvalidNumber);
                },
            }
        };
        let db = d_str.as_bytes();
        let c = db[0];
        let d = if c == 's' as u8 {
            TimeframeDesignator::Seconds
        } else if c == 'm' as u8 {
            TimeframeDesignator::Minutes
        } else if c == 'h' as u8 || c == 'H' as u8 {
            TimeframeDesignator::Hours
        } else if c == 'd' as u8 || c == 'D' as u8 {
            TimeframeDesignator::Days
        } else if c == 'w' as u8 || c == 'W' as u8 {
            TimeframeDesignator::Weeks
        } else if c == 'M' as u8 {
            TimeframeDesignator::Months
        } else {
            return Err(TimeframeParseError::InvalidDesignator);
        };
        Ok(Timeframe { designator: d, n })
    }
}

/// Law: the text form of a timeframe reads back as the same timeframe.
pub proof fn law_display_parse_roundtrip(tf: Timeframe)
    ensures
        ({
            let b = vstd::utf8::encode_utf8(dec(tf.n as nat) + tf.designator.spec_as_str());
            &&& b.len() >= 1
            &&& is_char_boundary(b, b.len() - 1)
            &&& parse_spec(b) == Ok::<Timeframe, TimeframeParseError>(tf)
        }),
{
    let digits = dec(tf.n as nat);
    let unit = tf.designator.spec_as_str();
    let cs = digits + unit;
    lemma_dec_value(tf.n as nat);
    lemma_dec_shape(tf.n as nat);
    assert(vstd::utf8::is_ascii_chars(unit));
    vstd::utf8::is_ascii_chars_concat(cs, digits, unit);
    lemma_ascii_encoding(cs);
    let b = ascii_bytes(cs);
    let k = digits.len() as int;
    assert(b.subrange(0, b.len() - 1) =~= ascii_bytes(digits));
    assert(b.subrange(b.len() - 1, b.len() as int) =~= ascii_bytes(unit));
    assert(b[0] == digits[0] as u8);
    crate::text::lemma_digit_char_byte(0);
    assert(crate::text::unsigned_body(ascii_bytes(digits)) == ascii_bytes(digits));
    vstd::utf8::encode_utf8_valid_utf8(cs);
    vstd::utf8::is_char_boundary_iff_not_is_continuation_byte(b, b.len() - 1);
}

} // verus!
