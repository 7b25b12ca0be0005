//! Timeframes counted in milliseconds, with the compact text form used by
//! exchanges (`"5s"`, `"15m"`, `"1M"`, ...).

use vstd::prelude::*;
use vstd::string::StringSliceAdditionalSpecFns;

use crate::text::{
    ascii_bytes, dec, dec_chars, digits_value, is_digit_byte, all_digits, lemma_ascii_encoding,
    lemma_dec_shape, lemma_dec_value, lemma_digits_value_step, string_from,
};

verus! {

broadcast use vstd::string::group_string_axioms;

/// The unit a timeframe is written in. Months, quarters and years are taken as
/// 30, 90 and 365 days.
#[derive(Clone, Copy, Debug, Default, PartialEq, Eq, Structural, Hash)]
pub enum TimeframeDesignator {
    Milliseconds,
    Seconds,
    #[default]
    Minutes,
    Hours,
    Days,
    Weeks,
    Months,
    Quarters,
    Years,
}

/// Why a timeframe string was refused.
#[derive(Clone, Copy, Debug, PartialEq, Eq, Structural)]
pub enum TimeframeError {
    /// The string is empty.
    Empty,
    /// The number does not fit a `u64`.
    NumberOverflow,
    /// The number part is not a decimal number.
    InvalidNumber,
    /// What follows the number is not a known designator.
    InvalidDesignator,
    /// The timeframe does not fit a `u64` of milliseconds.
    TimeframeOverflow,
}

impl TimeframeDesignator {
    pub open spec fn spec_as_millis(&self) -> u64 {
        match *self {
            TimeframeDesignator::Milliseconds => 1,
            TimeframeDesignator::Seconds => 1_000,
            TimeframeDesignator::Minutes => 60_000,
            TimeframeDesignator::Hours => 3_600_000,
            TimeframeDesignator::Days => 86_400_000,
            TimeframeDesignator::Weeks => 604_800_000,
            TimeframeDesignator::Months => 2_592_000_000,
            TimeframeDesignator::Quarters => 7_776_000_000,
            TimeframeDesignator::Years => 31_536_000_000,
        }
    }

    /// Position in the ascending order of unit lengths.
    pub open spec fn rank(&self) -> nat {
        match *self {
            TimeframeDesignator::Milliseconds => 0,
            TimeframeDesignator::Seconds => 1,
            TimeframeDesignator::Minutes => 2,
            TimeframeDesignator::Hours => 3,
            TimeframeDesignator::Days => 4,
            TimeframeDesignator::Weeks => 5,
            TimeframeDesignator::Months => 6,
            TimeframeDesignator::Quarters => 7,
            TimeframeDesignator::Years => 8,
        }
    }

    pub open spec fn spec_as_str(&self) -> Seq<char> {
        match *self {
            TimeframeDesignator::Milliseconds => seq!['m', 's'],
            TimeframeDesignator::Seconds => seq!['s'],
            TimeframeDesignator::Minutes => seq!['m'],
            TimeframeDesignator::Hours => seq!['h'],
            TimeframeDesignator::Days => seq!['d'],
            TimeframeDesignator::Weeks => seq!['w'],
            TimeframeDesignator::Months => seq!['M'],
            TimeframeDesignator::Quarters => seq!['Q'],
            TimeframeDesignator::Years => seq!['y'],
        }
    }

    /// The designator a byte string names. Every letter may be in either case,
    /// except `m` (minutes) and `M` (months).
    pub open spec fn from_bytes(b: Seq<u8>) -> Option<TimeframeDesignator> {
        if b.len() == 1 {
            let c = b[0];
            if c == 's' as u8 {
                Some(TimeframeDesignator::Seconds)
            } else if c == 'm' as u8 {
                Some(TimeframeDesignator::Minutes)
            } else if c == 'h' as u8 || c == 'H' as u8 {
                Some(TimeframeDesignator::Hours)
            } else if c == 'd' as u8 || c == 'D' as u8 {
                Some(TimeframeDesignator::Days)
            } else if c == 'w' as u8 || c == 'W' as u8 {
                Some(TimeframeDesignator::Weeks)
            } else if c == 'M' as u8 {
                Some(TimeframeDesignator::Months)
            } else if c == 'q' as u8 || c == 'Q' as u8 {
                Some(TimeframeDesignator::Quarters)
            } else if c == 'y' as u8 || c == 'Y' as u8 {
                Some(TimeframeDesignator::Years)
            } else {
                None
            }
        } else if b.len() == 2 {
            if b[0] == 'm' as u8 && b[1] == 's' as u8 {
                Some(TimeframeDesignator::Milliseconds)
            } else if b[0] == 'w' as u8 && b[1] == 'k' as u8 {
                Some(TimeframeDesignator::Weeks)
            } else if b[0] == 'm' as u8 && b[1] == 'o' as u8 {
                Some(TimeframeDesignator::Months)
            } else {
                None
            }
        } else if b.len() == 3 && b[0] == 'm' as u8 && b[1] == 'i' as u8 && b[2] == 'n' as u8 {
            Some(TimeframeDesignator::Minutes)
        } else {
            None
        }
    }

    /// Length of the unit in milliseconds.
    #[verifier::when_used_as_spec(spec_as_millis)]
    pub fn as_millis(&self) -> (r: u64)
        ensures
            r == self.spec_as_millis(),
    {
        match self {
            TimeframeDesignator::Milliseconds => 1,
            TimeframeDesignator::Seconds => 1_000,
            TimeframeDesignator::Minutes => 60_000,
            TimeframeDesignator::Hours => 3_600_000,
            TimeframeDesignator::Days => 86_400_000,
            TimeframeDesignator::Weeks => 604_800_000,
            TimeframeDesignator::Months => 2_592_000_000,
            TimeframeDesignator::Quarters => 7_776_000_000,
            TimeframeDesignator::Years => 31_536_000_000,
        }
    }

    /// The canonical one- or two-letter name of the unit.
    pub fn as_str(&self) -> (r: &'static str)
        ensures
            r@ == self.spec_as_str(),
    {
        match self {
            TimeframeDesignator::Milliseconds => {
                proof { reveal_strlit("ms"); }
                "ms"
            },
            TimeframeDesignator::Seconds => {
                proof { reveal_strlit("s"); }
                "s"
            },
            TimeframeDesignator::Minutes => {
                proof { reveal_strlit("m"); }
                "m"
            },
            TimeframeDesignator::Hours => {
                proof { reveal_strlit("h"); }
                "h"
            },
            TimeframeDesignator::Days => {
                proof { reveal_strlit("d"); }
                "d"
            },
            TimeframeDesignator::Weeks => {
                proof { reveal_strlit("w"); }
                "w"
            },
            TimeframeDesignator::Months => {
                proof { reveal_strlit("M"); }
                "M"
            },
            TimeframeDesignator::Quarters => {
                proof { reveal_strlit("Q"); }
                "Q"
            },
            TimeframeDesignator::Years => {
                proof { reveal_strlit("y"); }
                "y"
            },
        }
    }

    /// The designator named by `b`, if any.
    pub fn from_ascii(b: &[u8]) -> (r: Option<TimeframeDesignator>)
        ensures
            r == Self::from_bytes(b@),
    {
        if b.len() == 1 {
            let c = b[0];
            if c == 's' as u8 {
                Some(TimeframeDesignator::Seconds)
            } else if c == 'm' as u8 {
                Some(TimeframeDesignator::Minutes)
            } else if c == 'h' as u8 || c == 'H' as u8 {
                Some(TimeframeDesignator::Hours)
            } else if c == 'd' as u8 || c == 'D' as u8 {
                Some(TimeframeDesignator::Days)
            } else if c == 'w' as u8 || c == 'W' as u8 {
                Some(TimeframeDesignator::Weeks)
            } else if c == 'M' as u8 {
                Some(TimeframeDesignator::Months)
            } else if c == 'q' as u8 || c == 'Q' as u8 {
                Some(TimeframeDesignator::Quarters)
            } else if c == 'y' as u8 || c == 'Y' as u8 {
                Some(TimeframeDesignator::Years)
            } else {
                None
            }
        } else if b.len() == 2 {
            if b[0] == 'm' as u8 && b[1] == 's' as u8 {
                Some(TimeframeDesignator::Milliseconds)
            } else if b[0] == 'w' as u8 && b[1] == 'k' as u8 {
                Some(TimeframeDesignator::Weeks)
            } else if b[0] == 'm' as u8 && b[1] == 'o' as u8 {
                Some(TimeframeDesignator::Months)
            } else {
                None
            }
        } else if b.len() == 3 && b[0] == 'm' as u8 && b[1] == 'i' as u8 && b[2] == 'n' as u8 {
            Some(TimeframeDesignator::Minutes)
        } else {
            None
        }
    }

    /// Parses a designator name; see [`TimeframeDesignator::from_bytes`].
    pub fn from_str(s: &str) -> (r: Result<TimeframeDesignator, TimeframeError>)
        ensures
            match Self::from_bytes(s.spec_bytes()) {
                Some(d) => r == Ok::<TimeframeDesignator, TimeframeError>(d),
                None => r == Err::<TimeframeDesignator, TimeframeError>(TimeframeError::InvalidDesignator),
            },
    {
        match Self::from_ascii(s.as_bytes()) {
            Some(d) => Ok(d),
            None => Err(TimeframeError::InvalidDesignator),
        }
    }

    /// The string form of the designator (what `Display` writes).
    pub fn to_string(&self) -> (r: String)
        ensures
            r@ == self.spec_as_str(),
    {
        self.as_str().to_owned()
    }
}

/// The longest unit that divides `ms` evenly (years for zero).
pub open spec fn designator_of(ms: u64) -> TimeframeDesignator {
    if ms % 31_536_000_000 == 0 {
        TimeframeDesignator::Years
    } else if ms % 7_776_000_000 == 0 {
        TimeframeDesignator::Quarters
    } else if ms % 2_592_000_000 == 0 {
        TimeframeDesignator::Months
    } else if ms % 604_800_000 == 0 {
        TimeframeDesignator::Weeks
    } else if ms % 86_400_000 == 0 {
        TimeframeDesignator::Days
    } else if ms % 3_600_000 == 0 {
        TimeframeDesignator::Hours
    } else if ms % 60_000 == 0 {
        TimeframeDesignator::Minutes
    } else if ms % 1_000 == 0 {
        TimeframeDesignator::Seconds
    } else {
        TimeframeDesignator::Milliseconds
    }
}

/// The longest unit that divides `ms` evenly (years for zero).
pub(crate) fn longest_unit(ms: u64) -> (d: TimeframeDesignator)
    ensures
        d == designator_of(ms),
        ms % d.spec_as_millis() == 0,
        forall|e: TimeframeDesignator| e.rank() > d.rank() ==> ms % e.spec_as_millis() != 0,
{
    if ms % 31_536_000_000 == 0 {
        TimeframeDesignator::Years
    } else if ms % 7_776_000_000 == 0 {
        TimeframeDesignator::Quarters
    } else if ms % 2_592_000_000 == 0 {
        TimeframeDesignator::Months
    } else if ms % 604_800_000 == 0 {
        TimeframeDesignator::Weeks
    } else if ms % 86_400_000 == 0 {
        TimeframeDesignator::Days
    } else if ms % 3_600_000 == 0 {
        TimeframeDesignator::Hours
    } else if ms % 60_000 == 0 {
        TimeframeDesignator::Minutes
    } else if ms % 1_000 == 0 {
        TimeframeDesignator::Seconds
    } else {
        TimeframeDesignator::Milliseconds
    }
}

/// The text form of a timeframe: the count of its longest dividing unit,
/// followed by that unit's name.
pub open spec fn display_spec(ms: u64) -> Seq<char> {
    let d = designator_of(ms);
    dec((ms / d.spec_as_millis()) as nat) + d.spec_as_str()
}

/// How the digit loop of [`Timeframe::from_str`] ends on a run of digits:
/// 0 = it completes, 1 = multiplying by ten overflows (an error),
/// 2 = adding the digit overflows.
pub open spec fn digit_loop_outcome(s: Seq<u8>) -> nat
    decreases s.len(),
{
    if s.len() == 0 {
        0
    } else {
        let prev = digit_loop_outcome(s.drop_last());
        if prev != 0 {
            prev
        } else {
            let v = digits_value(s.drop_last());
            if v * 10 > u64::MAX {
                1
            } else if v * 10 + (s.last() - 48) > u64::MAX {
                2
            } else {
                0
            }
        }
    }
}

/// Number of leading decimal digit bytes.
pub open spec fn digit_prefix_len(b: Seq<u8>) -> nat
    decreases b.len(),
{
    if b.len() == 0 || !is_digit_byte(b[0]) {
        0
    } else {
        1 + digit_prefix_len(b.drop_first())
    }
}

/// Whether reading `b` overflows a `u64` while adding a digit, which panics.
pub open spec fn parse_panics(b: Seq<u8>) -> bool {
    b.len() > 0 && digit_loop_outcome(b.subrange(0, digit_prefix_len(b) as int)) == 2
}

/// The milliseconds that a timeframe string denotes: a run of decimal digits
/// (none means 1), then a designator (none means minutes).
pub open spec fn parse_spec(b: Seq<u8>) -> Result<u64, TimeframeError> {
    if b.len() == 0 {
        Err(TimeframeError::Empty)
    } else {
        let k = digit_prefix_len(b) as int;
        let count = b.subrange(0, k);
        let rest = b.subrange(k, b.len() as int);
        if digit_loop_outcome(count) == 1 {
            Err(TimeframeError::NumberOverflow)
        } else {
            let d = if rest.len() == 0 {
                Some(TimeframeDesignator::Minutes)
            } else {
                TimeframeDesignator::from_bytes(rest)
            };
            match d {
                None => Err(TimeframeError::InvalidDesignator),
                Some(d) => {
                    let n: nat = if k == 0 { 1 } else { digits_value(count) };
                    if n * d.spec_as_millis() > u64::MAX {
                        Err(TimeframeError::TimeframeOverflow)
                    } else {
                        Ok((n * d.spec_as_millis()) as u64)
                    }
                },
            }
        }
    }
}

/// A timeframe, as a number of milliseconds.
#[derive(Clone, Copy, Debug, Default, PartialEq, Eq, Structural, PartialOrd, Ord, Hash)]
pub struct Timeframe(pub u64);

proof fn lemma_digit_prefix_len(b: Seq<u8>, i: int)
    requires
        0 <= i <= b.len(),
        all_digits(b.subrange(0, i)),
        i == b.len() || !is_digit_byte(b[i]),
    ensures
        digit_prefix_len(b) == i,
    decreases i,
{
    if i > 0 {
        assert(is_digit_byte(b.subrange(0, i)[0]));
        let t = b.drop_first();
        assert(all_digits(t.subrange(0, i - 1))) by {
            assert forall|j: int| 0 <= j < i - 1 implies is_digit_byte(#[trigger] t.subrange(0, i - 1)[j]) by {
                assert(t.subrange(0, i - 1)[j] == b.subrange(0, i)[j + 1]);
            }
        }
        lemma_digit_prefix_len(t, i - 1);
    }
}

/// A run of digits whose value fits a `u64` is read without overflow.
proof fn lemma_digit_loop_fits(s: Seq<u8>)
    requires
        all_digits(s),
        digits_value(s) <= u64::MAX,
    ensures
        digit_loop_outcome(s) == 0,
    decreases s.len(),
{
    if s.len() > 0 {
        assert(all_digits(s.drop_last()));
        lemma_digit_loop_fits(s.drop_last());
    }
}

impl Timeframe {
    /// The timeframe of `n` units of `designator`.
    pub fn from_naive(n: u64, designator: TimeframeDesignator) -> (r: Timeframe)
        requires
            n * designator.spec_as_millis() <= u64::MAX,
        ensures
            r.0 == n * designator.spec_as_millis(),
    {
        Timeframe(n * designator.as_millis())
    }

    /// The timeframe as a `Duration`: that of its milliseconds, which it holds
    /// as whole milliseconds.
    pub fn duration(&self) -> (d: std::time::Duration)
        ensures
            d == millis_duration(self.0),
            duration_whole_millis(d) == self.0,
    {
        duration_from_millis(self.0)
    }

    /// The timeframe of a duration's whole milliseconds, truncated to 64 bits.
    pub fn from_duration(d: std::time::Duration) -> (r: Timeframe)
        ensures
            r.0 == duration_whole_millis(d) as u64,
    {
        Self::from_millis_count(duration_as_millis(&d))
    }

    /// The timeframe of a count of milliseconds, truncated to 64 bits as `as u64` does.
    pub fn from_millis_count(ms: u128) -> (r: Timeframe)
        ensures
            r.0 == ms as u64,
    {
        Timeframe(ms as u64)
    }

    /// Whole seconds in the timeframe.
    pub fn seconds(&self) -> (r: u64)
        ensures
            r == self.0 / 1000,
    {
        self.0 / 1_000
    }

    /// The longest unit that divides the timeframe evenly.
    pub fn designator(&self) -> (d: TimeframeDesignator)
        requires
            self.0 != 0,
        ensures
            d == designator_of(self.0),
            self.0 % d.spec_as_millis() == 0,
            forall|e: TimeframeDesignator| e.rank() > d.rank() ==> self.0 % e.spec_as_millis() != 0,
    {
        longest_unit(self.0)
    }

    /// Reads a timeframe from its ASCII bytes; `None` where adding a digit
    /// overflows a `u64` (which panics in [`Timeframe::parse_ascii`]).
    pub fn parse_checked(b: &[u8]) -> (r: Option<Result<Timeframe, TimeframeError>>)
        ensures
            parse_panics(b@) ==> r is None,
            !parse_panics(b@) ==> r == Some(
                match parse_spec(b@) {
                    Ok(ms) => Ok::<Timeframe, TimeframeError>(Timeframe(ms)),
                    Err(e) => Err::<Timeframe, TimeframeError>(e),
                },
            ),
    {
        if b.len() == 0 {
            return Some(Err(TimeframeError::Empty));
        }
        let mut n: u64 = 0;
        let mut i: usize = 0;
        while i < b.len() && b[i] >= 48 && b[i] <= 57
            invariant
                i <= b@.len(),
                all_digits(b@.subrange(0, i as int)),
                digit_loop_outcome(b@.subrange(0, i as int)) == 0,
                n == digits_value(b@.subrange(0, i as int)),
                b@.len() > 0,
            decreases b@.len() - i,
        {
            let ghost pre = b@.subrange(0, i as int);
            let ghost next = b@.subrange(0, i + 1);
            assert(next.drop_last() =~= pre);
            proof {
                lemma_digits_value_step(b@, i as int);
            }
            if n > u64::MAX / 10 {
                proof {
                    assert(digit_loop_outcome(next) == 1);
                    // the loop fails before reaching the end of the digit run
                    let k = digit_prefix_len(b@);
                    lemma_outcome_sticks(b@, i + 1);
                }
                return Some(Err(TimeframeError::NumberOverflow));
            }
            let d = (b[i] - 48) as u64;
            if n * 10 > u64::MAX - d {
                proof {
                    assert(digit_loop_outcome(next) == 2);
                    lemma_outcome_sticks(b@, i + 1);
                }
                return None;
            }
            n = n * 10 + d;
            i = i + 1;
            assert(all_digits(b@.subrange(0, i as int)));
        }
        proof {
            lemma_digit_prefix_len(b@, i as int);
        }
        let designator = if i == b.len() {
            TimeframeDesignator::Minutes
        } else {
            let (_, rest) = b.split_at(i);
            match TimeframeDesignator::from_ascii(rest) {
                Some(d) => d,
                None => {
                    return Some(Err(TimeframeError::InvalidDesignator));
                },
            }
        };
        if i == 0 {
            n = 1;
        }
        match n.checked_mul(designator.as_millis()) {
            Some(ms) => Some(Ok(Timeframe(ms))),
            None => Some(Err(TimeframeError::TimeframeOverflow)),
        }
    }

    /// Reads a timeframe from its ASCII bytes; see [`parse_spec`].
    pub fn parse_ascii(b: &[u8]) -> (r: Result<Timeframe, TimeframeError>)
        requires
            !parse_panics(b@),
        ensures
            match parse_spec(b@) {
                Ok(ms) => r == Ok::<Timeframe, TimeframeError>(Timeframe(ms)),
                Err(e) => r == Err::<Timeframe, TimeframeError>(e),
            },
    {
        match Self::parse_checked(b) {
            Some(r) => r,
            None => Err(TimeframeError::NumberOverflow),
        }
    }

    /// Reads a timeframe string such as `"5s"`, `"15m"` or `"1M"`.
    pub fn from_str(s: &str) -> (r: Result<Timeframe, TimeframeError>)
        requires
            !parse_panics(s.spec_bytes()),
        ensures
            match parse_spec(s.spec_bytes()) {
                Ok(ms) => r == Ok::<Timeframe, TimeframeError>(Timeframe(ms)),
                Err(e) => r == Err::<Timeframe, TimeframeError>(e),
            },
    {
        Self::parse_ascii(s.as_bytes())
    }

    /// The timeframe a well-formed literal names.
    pub fn from(s: &str) -> (r: Timeframe)
        requires
            !parse_panics(s.spec_bytes()),
            parse_spec(s.spec_bytes()) is Ok,
        ensures
            parse_spec(s.spec_bytes()) == Ok::<u64, TimeframeError>(r.0),
    {
        match Self::parse_ascii(s.as_bytes()) {
            Ok(tf) => tf,
            Err(_) => {
                assert(false);
                Timeframe(0)
            },
        }
    }

    /// The text form: the count of the longest dividing unit, then its name.
    pub fn to_string(&self) -> (r: String)
        requires
            self.0 != 0,
        ensures
            r@ == display_spec(self.0),
    {
        let d = self.designator();
        let n = self.0 / d.as_millis();
        let mut digits = dec_chars(n);
        let mut s = string_from(digits.as_slice());
        crate::text::push_str(&mut s, d.as_str());
        s
    }

    /// The first of `predefined` that names this timeframe.
    pub fn try_as_predefined(&self, predefined: &[&'static str]) -> (r: Option<&'static str>)
        requires
            forall|i: int| 0 <= i < predefined@.len() ==> {
                &&& !parse_panics(#[trigger] predefined@[i].spec_bytes())
                &&& parse_spec(predefined@[i].spec_bytes()) is Ok
            },
        ensures
            match r {
                Some(s) => exists|i: int| {
                    &&& 0 <= i < predefined@.len()
                    &&& s == predefined@[i]
                    &&& parse_spec(predefined@[i].spec_bytes()) == Ok::<u64, TimeframeError>(self.0)
                    &&& forall|j: int| 0 <= j < i ==> parse_spec(#[trigger] predefined@[j].spec_bytes())
                        != Ok::<u64, TimeframeError>(self.0)
                },
                None => forall|i: int| 0 <= i < predefined@.len() ==> parse_spec(#[trigger] predefined@[i].spec_bytes())
                    != Ok::<u64, TimeframeError>(self.0),
            },
    {
        let mut i: usize = 0;
        while i < predefined.len()
            invariant
                i <= predefined@.len(),
                forall|j: int| 0 <= j < i ==> parse_spec(#[trigger] predefined@[j].spec_bytes())
                    != Ok::<u64, TimeframeError>(self.0),
                forall|i: int| 0 <= i < predefined@.len() ==> {
                    &&& !parse_panics(#[trigger] predefined@[i].spec_bytes())
                    &&& parse_spec(predefined@[i].spec_bytes()) is Ok
                },
            decreases predefined@.len() - i,
        {
            let s = predefined[i];
            let tf = Self::from(s);
            if tf.0 == self.0 {
                return Some(s);
            }
            i = i + 1;
        }
        None
    }
}

/// Every unit name is ASCII and reads back as the unit it names.
pub(crate) proof fn lemma_designator_name(d: TimeframeDesignator)
    ensures
        vstd::utf8::is_ascii_chars(d.spec_as_str()),
        d.spec_as_str().len() >= 1,
        !is_digit_byte(ascii_bytes(d.spec_as_str())[0]),
        TimeframeDesignator::from_bytes(ascii_bytes(d.spec_as_str())) == Some(d),
{
    let b = ascii_bytes(d.spec_as_str());
    assert(b.len() == d.spec_as_str().len());
    assert(b[0] == d.spec_as_str()[0] as u8);
    if d.spec_as_str().len() == 2 {
        assert(b[1] == d.spec_as_str()[1] as u8);
    }
}

/// Law: a literal made of a positive count and a unit name parses to that many
/// units, as [`Timeframe::from_naive`] builds them (e.g. `"15m"` is 15 minutes).
pub proof fn law_literal_parses_as_from_naive(n: u64, d: TimeframeDesignator)
    requires
        n >= 1,
        n * d.spec_as_millis() <= u64::MAX,
    ensures
        ({
            let b = vstd::utf8::encode_utf8(dec(n as nat) + d.spec_as_str());
            &&& !parse_panics(b)
            &&& parse_spec(b) == Ok::<u64, TimeframeError>((n * d.spec_as_millis()) as u64)
        }),
{
    let digits = dec(n as nat);
    let name = d.spec_as_str();
    let cs = digits + name;
    lemma_dec_value(n as nat);
    lemma_dec_shape(n as nat);
    lemma_designator_name(d);
    vstd::utf8::is_ascii_chars_concat(cs, digits, name);
    lemma_ascii_encoding(cs);
    let b = ascii_bytes(cs);
    let k = digits.len() as int;
    assert(b.subrange(0, k) =~= ascii_bytes(digits));
    assert(b.subrange(k, b.len() as int) =~= ascii_bytes(name));
    assert(b[k] == ascii_bytes(name)[0]);
    lemma_digit_prefix_len(b, k);
    lemma_digit_loop_fits(ascii_bytes(digits));
}

/// Law: the text form of a non-empty timeframe parses back to the same timeframe.
pub proof fn law_display_parse_roundtrip(tf: Timeframe)
    requires
        tf.0 != 0,
    ensures
        ({
            let b = vstd::utf8::encode_utf8(display_spec(tf.0));
            &&& !parse_panics(b)
            &&& parse_spec(b) == Ok::<u64, TimeframeError>(tf.0)
        }),
{
    let ms = tf.0;
    let d = designator_of(ms);
    let m = d.spec_as_millis();
    assert(ms % m == 0);
    let n = ms / m;
    assert(n * m == ms) by (nonlinear_arith)
        requires
            ms % m == 0,
            m > 0,
            n == ms / m,
    ;
    assert(n >= 1) by (nonlinear_arith)
        requires
            n * m == ms,
            ms != 0,
    ;
    law_literal_parses_as_from_naive(n, d);
}

/// Law: the unit chosen for the text form divides the timeframe, and no longer
/// unit does.
pub proof fn law_designator_is_longest_divisor(ms: u64)
    ensures
        ms % designator_of(ms).spec_as_millis() == 0,
        forall|e: TimeframeDesignator| e.rank() > designator_of(ms).rank() ==> ms % e.spec_as_millis() != 0,
{
}

proof fn lemma_digit_prefix_at_least(b: Seq<u8>, i: int)
    requires
        0 <= i <= b.len(),
        all_digits(b.subrange(0, i)),
    ensures
        digit_prefix_len(b) >= i,
    decreases i,
{
    if i > 0 {
        assert(is_digit_byte(b.subrange(0, i)[0]));
        let t = b.drop_first();
        assert(all_digits(t.subrange(0, i - 1))) by {
            assert forall|j: int| 0 <= j < i - 1 implies is_digit_byte(#[trigger] t.subrange(0, i - 1)[j]) by {
                assert(t.subrange(0, i - 1)[j] == b.subrange(0, i)[j + 1]);
            }
        }
        lemma_digit_prefix_at_least(t, i - 1);
    }
}

proof fn lemma_outcome_extends(b: Seq<u8>, i: int, m: int)
    requires
        0 < i <= m <= b.len(),
        digit_loop_outcome(b.subrange(0, i)) != 0,
    ensures
        digit_loop_outcome(b.subrange(0, m)) == digit_loop_outcome(b.subrange(0, i)),
    decreases m - i,
{
    if m > i {
        lemma_outcome_extends(b, i, m - 1);
        assert(b.subrange(0, m).drop_last() =~= b.subrange(0, m - 1));
    }
}

/// What std's `Duration::from_millis` gives for a count of milliseconds.
pub uninterp spec fn millis_duration(ms: u64) -> std::time::Duration;

/// What std's `Duration::as_millis` gives for a duration: its whole milliseconds.
pub uninterp spec fn duration_whole_millis(d: std::time::Duration) -> u128;

/// `Duration::from_millis` of std: the duration of `ms` milliseconds. The
/// contract names the value and states what std documents of it: read back
/// with `as_millis`, it holds `ms` whole milliseconds.
#[verifier::external_body]
pub(crate) fn duration_from_millis(ms: u64) -> (r: std::time::Duration)
    ensures
        r == millis_duration(ms),
        duration_whole_millis(r) == ms,
{
    std::time::Duration::from_millis(ms)
}

/// `Duration::as_millis` of std: the whole milliseconds a duration holds.
#[verifier::external_body]
pub(crate) fn duration_as_millis(d: &std::time::Duration) -> (r: u128)
    ensures
        r == duration_whole_millis(*d),
{
    d.as_millis()
}

/// Once the digit loop fails on a prefix of the digit run, it fails the same way on the whole run.
proof fn lemma_outcome_sticks(b: Seq<u8>, i: int)
    requires
        0 < i <= b.len(),
        all_digits(b.subrange(0, i)),
        digit_loop_outcome(b.subrange(0, i)) != 0,
    ensures
        digit_loop_outcome(b.subrange(0, digit_prefix_len(b) as int)) == digit_loop_outcome(b.subrange(0, i)),
{
    lemma_digit_prefix_at_least(b, i);
    lemma_digit_prefix_le_len(b);
    lemma_outcome_extends(b, i, digit_prefix_len(b) as int);
}

proof fn lemma_digit_prefix_le_len(b: Seq<u8>)
    ensures
        digit_prefix_len(b) <= b.len(),
    decreases b.len(),
{
    if b.len() > 0 {
        lemma_digit_prefix_le_len(b.drop_first());
    }
}

/// Law: the unit names are distinct ("m" minutes, "M" months), and each reads
/// back, through [`TimeframeDesignator::from_str`], as the unit it names.
pub proof fn law_designator_name_roundtrip(d: TimeframeDesignator, e: TimeframeDesignator)
    ensures
        TimeframeDesignator::from_bytes(vstd::utf8::encode_utf8(d.spec_as_str())) == Some(d),
        d != e ==> d.spec_as_str() != e.spec_as_str(),
{
    lemma_designator_name(d);
    lemma_ascii_encoding(d.spec_as_str());
    lemma_designator_name(e);
    lemma_ascii_encoding(e.spec_as_str());
}

/// Every spelling of each unit that a designator is read from, listed unit by
/// unit: `ms`; `s`; `m`, `min`; `h`, `H`; `d`, `D`; `w`, `W`, `wk`; `M`, `mo`;
/// `q`, `Q`; `y`, `Y`.
pub open spec fn designator_spellings(d: TimeframeDesignator) -> Seq<Seq<u8>> {
    match d {
        TimeframeDesignator::Milliseconds => seq![seq!['m' as u8, 's' as u8]],
        TimeframeDesignator::Seconds => seq![seq!['s' as u8]],
        TimeframeDesignator::Minutes => seq![seq!['m' as u8], seq!['m' as u8, 'i' as u8, 'n' as u8]],
        TimeframeDesignator::Hours => seq![seq!['h' as u8], seq!['H' as u8]],
        TimeframeDesignator::Days => seq![seq!['d' as u8], seq!['D' as u8]],
        TimeframeDesignator::Weeks => seq![seq!['w' as u8], seq!['W' as u8], seq!['w' as u8, 'k' as u8]],
        TimeframeDesignator::Months => seq![seq!['M' as u8], seq!['m' as u8, 'o' as u8]],
        TimeframeDesignator::Quarters => seq![seq!['q' as u8], seq!['Q' as u8]],
        TimeframeDesignator::Years => seq![seq!['y' as u8], seq!['Y' as u8]],
    }
}

/// Law: a designator is read from exactly its listed spellings: each spelling
/// of a unit (`"D"` and `"d"` for days, `"min"` for minutes, `"mo"` and `"M"`
/// for months, ...) reads as that unit, and a text that reads as a unit is one
/// of that unit's spellings.
pub proof fn law_designator_spellings(d: TimeframeDesignator, b: Seq<u8>)
    ensures
        forall|i: int| 0 <= i < designator_spellings(d).len() ==> TimeframeDesignator::from_bytes(
            #[trigger] designator_spellings(d)[i],
        ) == Some(d),
        TimeframeDesignator::from_bytes(b) == Some(d) ==> designator_spellings(d).contains(b),
{
    if TimeframeDesignator::from_bytes(b) == Some(d) {
        let sp = designator_spellings(d);
        if b.len() == 1 {
            assert(b =~= seq![b[0]]);
            assert(exists|i: int| 0 <= i < sp.len() && sp[i] == b) by {
                if sp[0] == b {
                } else if sp.len() > 1 && sp[1] == b {
                } else {
                    assert(sp[1] =~= b);
                }
            }
        } else if b.len() == 2 {
            assert(b =~= seq![b[0], b[1]]);
            assert(exists|i: int| 0 <= i < sp.len() && sp[i] == b) by {
                if sp[0] == b {
                } else {
                    assert(sp[sp.len() - 1] =~= b);
                }
            }
        } else {
            assert(b =~= seq![b[0], b[1], b[2]]);
            assert(sp[1] =~= b);
        }
    }
}

} // verus!
