//! Timeframes as exchange APIs write them, read with the permissive rules that
//! tolerate exchange quirks (`"5min"`, `"1wk"`, Bybit's bare `"60"`).

use vstd::prelude::*;
use vstd::string::StringSliceAdditionalSpecFns;
use vstd::utf8::{encode_utf8, is_char_boundary};

pub use crate::primitives::timeframe::{designator_of, display_spec, TimeframeDesignator, TimeframeError};
use crate::primitives::timeframe::{designator_spellings, law_designator_spellings, law_designator_name_roundtrip, duration_as_millis, duration_from_millis, duration_whole_millis, millis_duration, lemma_designator_name, longest_unit};
use crate::text::{
    ascii_bytes, chars_of, dec, dec_chars, lemma_ascii_encoding, lemma_dec_shape, lemma_dec_value, parse_unsigned,
    parse_unsigned_bytes, push_str, string_from, unsigned_body,
};

verus! {

broadcast use vstd::string::group_string_axioms;

pub open spec fn is_ascii_alpha(c: char) -> bool {
    ('a' <= c <= 'z') || ('A' <= c <= 'Z')
}

/// Index of the first ASCII letter.
pub open spec fn first_alpha(cs: Seq<char>) -> Option<int>
    decreases cs.len(),
{
    if cs.len() == 0 {
        None
    } else if is_ascii_alpha(cs[0]) {
        Some(0)
    } else {
        match first_alpha(cs.drop_first()) {
            Some(i) => Some(i + 1),
            None => None,
        }
    }
}

/// The number part and the designator part of a timeframe string: split at
/// the first letter (by its position among the characters, applied to the
/// bytes), or the whole string and an implied `"m"` when there is no letter.
pub open spec fn split_parts(cs: Seq<char>, b: Seq<u8>) -> (Seq<u8>, Seq<u8>) {
    match first_alpha(cs) {
        Some(p) => (b.subrange(0, p), b.subrange(p, b.len() as int)),
        None => (b, seq!['m' as u8]),
    }
}

/// Whether the split falls between characters (else slicing panics).
pub open spec fn split_ok(cs: Seq<char>, b: Seq<u8>) -> bool {
    match first_alpha(cs) {
        Some(p) => is_char_boundary(b, p),
        None => true,
    }
}

/// The count and unit a timeframe string names, before they are multiplied.
pub open spec fn count_and_unit(cs: Seq<char>, b: Seq<u8>) -> Result<(nat, TimeframeDesignator), TimeframeError> {
    let (n_b, d_b) = split_parts(cs, b);
    if cs.len() == 0 {
        Err(TimeframeError::Empty)
    } else {
        match TimeframeDesignator::from_bytes(d_b) {
            None => Err(TimeframeError::InvalidDesignator),
            Some(d) => {
                if n_b.len() == 0 {
                    Ok((1, d))
                } else {
                    match parse_unsigned(n_b, u64::MAX as nat) {
                        Some(n) => Ok((n, d)),
                        None => Err(TimeframeError::InvalidNumber),
                    }
                }
            },
        }
    }
}

/// The milliseconds a timeframe string names.
pub open spec fn parse_spec(cs: Seq<char>, b: Seq<u8>) -> Result<nat, TimeframeError> {
    match count_and_unit(cs, b) {
        Ok((n, d)) => Ok(n * (d.spec_as_millis() as nat)),
        Err(e) => Err(e),
    }
}

/// Whether reading the string panics: a split inside a character, or a
/// product that overflows a `u64`.
pub open spec fn parse_panics(cs: Seq<char>, b: Seq<u8>) -> bool {
    ||| !split_ok(cs, b)
    ||| (parse_spec(cs, b) is Ok && parse_spec(cs, b)->Ok_0 > u64::MAX)
}

/// A timeframe, as a number of milliseconds.
#[derive(Clone, Copy, Debug, Default, PartialEq, Eq, Structural, PartialOrd, Ord, Hash)]
pub struct Timeframe(pub u64);

/// `jiff::SignedDuration`, opaque here.
#[verifier::external_type_specification]
#[verifier::external_body]
pub struct ExSignedDuration(jiff::SignedDuration);

/// What jiff's `SignedDuration::from_millis` gives for a count of milliseconds.
pub uninterp spec fn millis_signed_duration(ms: i64) -> jiff::SignedDuration;

/// jiff's `SignedDuration::from_millis`: the signed duration of `ms`
/// milliseconds (it does not fail for any `i64`). The type is opaque to Verus,
/// so the contract names the value rather than describing it.
#[verifier::external_body]
fn signed_duration_from_millis(ms: i64) -> (r: jiff::SignedDuration)
    ensures
        r == millis_signed_duration(ms),
{
    jiff::SignedDuration::from_millis(ms)
}

impl Timeframe {
    /// Reads a timeframe string (see [`Timeframe::from_str`]); `None` where
    /// that panics (see [`parse_panics`]).
    pub fn from_str_checked(s: &str) -> (r: Option<Result<Timeframe, TimeframeError>>)
        ensures
            parse_panics(s@, s.spec_bytes()) ==> r is None,
            !parse_panics(s@, s.spec_bytes()) ==> r == Some(
                match parse_spec(s@, s.spec_bytes()) {
                    Ok(ms) => Ok::<Timeframe, TimeframeError>(Timeframe(ms as u64)),
                    Err(e) => Err::<Timeframe, TimeframeError>(e),
                },
            ),
    {
        let cs = chars_of(s);
        let mut i: usize = 0;
        assert(cs@.subrange(0, cs@.len() as int) =~= cs@);
        while i < cs.len() && !((cs[i] >= 'a' && cs[i] <= 'z') || (cs[i] >= 'A' && cs[i] <= 'Z'))
            invariant
                i <= cs@.len(),
                cs@ == s@,
                match first_alpha(cs@.subrange(i as int, cs@.len() as int)) {
                    Some(p) => first_alpha(cs@) == Some(p + i),
                    None => first_alpha(cs@) is None,
                },
            decreases cs@.len() - i,
        {
            proof {
                let t = cs@.subrange(i as int, cs@.len() as int);
                assert(t.drop_first() =~= cs@.subrange(i + 1, cs@.len() as int));
            }
            i = i + 1;
        }
        let m_str = "m";
        proof {
            reveal_strlit("m");
            lemma_ascii_encoding(m_str@);
            if i < cs.len() {
                let t = cs@.subrange(i as int, cs@.len() as int);
                assert(t[0] == cs@[i as int]);
            } else {
                assert(cs@.subrange(i as int, cs@.len() as int).len() == 0);
            }
            assert(m_str.spec_bytes() =~= seq!['m' as u8]);
        }
        if i < cs.len() && !s.is_char_boundary(i) {
            return None;
        }
        let (n_str, d_str): (&str, &str) = if i < cs.len() {
            s.split_at(i)
        } else {
            (s, m_str)
        };
        if s.is_empty() {
            return Some(Err(TimeframeError::Empty));
        }
        let ghost b = s.spec_bytes();
        assert(n_str.spec_bytes() == split_parts(s@, b).0);
        assert(d_str.spec_bytes() == split_parts(s@, b).1);
        let designator = match TimeframeDesignator::from_ascii(d_str.as_bytes()) {
            Some(d) => d,
            None => {
                return Some(Err(TimeframeError::InvalidDesignator));
            },
        };
        assert(TimeframeDesignator::from_bytes(split_parts(s@, b).1) == Some(designator));
        proof {
            crate::text::lemma_encode_empty(n_str@);
        }
        let n = if n_str.is_empty() {
            1
        } else {
            match parse_unsigned_bytes(n_str.as_bytes(), u64::MAX) {
                Some(n) => {
                    assert(parse_unsigned(split_parts(s@, b).0, u64::MAX as nat) == Some(n as nat));
                    n
                },
                None => {
                    return Some(Err(TimeframeError::InvalidNumber));
                },
            }
        };
        assert(count_and_unit(s@, b) == Ok::<(nat, TimeframeDesignator), TimeframeError>((n as nat, designator)));
        match n.checked_mul(designator.as_millis()) {
            Some(ms) => Some(Ok(Timeframe(ms))),
            None => None,
        }
    }

    /// Reads a timeframe string: a number (`+` allowed, none means 1), then a
    /// designator (none means minutes).
    pub fn from_str(s: &str) -> (r: Result<Timeframe, TimeframeError>)
        requires
            !parse_panics(s@, s.spec_bytes()),
        ensures
            match parse_spec(s@, s.spec_bytes()) {
                Ok(ms) => r == Ok::<Timeframe, TimeframeError>(Timeframe(ms as u64)),
                Err(e) => r == Err::<Timeframe, TimeframeError>(e),
            },
    {
        match Self::from_str_checked(s) {
            Some(r) => r,
            None => Err(TimeframeError::Empty),
        }
    }

    /// The timeframe a well-formed literal names.
    pub fn from(s: &str) -> (r: Timeframe)
        requires
            !parse_panics(s@, s.spec_bytes()),
            parse_spec(s@, s.spec_bytes()) is Ok,
        ensures
            parse_spec(s@, s.spec_bytes()) == Ok::<nat, TimeframeError>(r.0 as nat),
    {
        match Self::from_str(s) {
            Ok(tf) => tf,
            Err(_) => {
                assert(false);
                Timeframe(0)
            },
        }
    }

    /// The first of `predefined` that names this timeframe.
    pub fn try_as_predefined(&self, predefined: &[&'static str]) -> (r: Option<&'static str>)
        requires
            forall|i: int| 0 <= i < predefined@.len() ==> {
                &&& !parse_panics(#[trigger] predefined@[i]@, predefined@[i].spec_bytes())
                &&& parse_spec(predefined@[i]@, predefined@[i].spec_bytes()) is Ok
            },
        ensures
            match r {
                Some(s) => exists|i: int| {
                    &&& 0 <= i < predefined@.len()
                    &&& s == predefined@[i]
                    &&& parse_spec(predefined@[i]@, predefined@[i].spec_bytes()) == Ok::<nat, TimeframeError>(self.0 as nat)
                    &&& forall|j: int| 0 <= j < i ==> parse_spec(#[trigger] predefined@[j]@, predefined@[j].spec_bytes())
                        != Ok::<nat, TimeframeError>(self.0 as nat)
                },
                None => forall|i: int| 0 <= i < predefined@.len() ==> parse_spec(#[trigger] predefined@[i]@, predefined@[i].spec_bytes())
                    != Ok::<nat, TimeframeError>(self.0 as nat),
            },
    {
        let mut i: usize = 0;
        while i < predefined.len()
            invariant
                i <= predefined@.len(),
                forall|j: int| 0 <= j < i ==> parse_spec(#[trigger] predefined@[j]@, predefined@[j].spec_bytes())
                    != Ok::<nat, TimeframeError>(self.0 as nat),
                forall|i: int| 0 <= i < predefined@.len() ==> {
                    &&& !parse_panics(#[trigger] predefined@[i]@, predefined@[i].spec_bytes())
                    &&& parse_spec(predefined@[i]@, predefined@[i].spec_bytes()) is Ok
                },
            decreases predefined@.len() - i,
        {
            let s = predefined[i];
            let tf = Self::from(s);
            if tf.0 == self.0 {
                return Some(s);
            }
            i = i + 1;
        }
        None
    }

    /// The timeframe as a `Duration`: that of its milliseconds, which it holds
    /// as whole milliseconds.
    pub fn duration(&self) -> (d: std::time::Duration)
        ensures
            d == millis_duration(self.0),
            duration_whole_millis(d) == self.0,
    {
        duration_from_millis(self.0)
    }

    /// The timeframe as a jiff `SignedDuration`, of the milliseconds taken as an
    /// `i64` (wrapping above `i64::MAX`).
    pub fn signed_duration(&self) -> (d: jiff::SignedDuration)
        ensures
            d == millis_signed_duration(self.0 as i64),
    {
        let ms = self.0 as i64;
        signed_duration_from_millis(ms)
    }

    /// The timeframe of a duration's whole milliseconds, truncated to 64 bits.
    pub fn from_duration(d: std::time::Duration) -> (r: Timeframe)
        ensures
            r.0 == duration_whole_millis(d) as u64,
    {
        Self::from_millis_count(duration_as_millis(&d))
    }

    /// The timeframe of a count of milliseconds, truncated to 64 bits as `as u64` does.
    pub fn from_millis_count(ms: u128) -> (r: Timeframe)
        ensures
            r.0 == ms as u64,
    {
        Timeframe(ms as u64)
    }

    /// The timeframe of `n` units of `designator`.
    pub fn from_naive(n: u64, designator: TimeframeDesignator) -> (r: Timeframe)
        requires
            n * designator.spec_as_millis() <= u64::MAX,
        ensures
            r.0 == n * designator.spec_as_millis(),
    {
        Timeframe(n * designator.as_millis())
    }

    /// Whole seconds in the timeframe.
    pub fn seconds(&self) -> (r: u64)
        ensures
            r == self.0 / 1000,
    {
        self.0 / 1_000
    }

    /// The longest unit that divides the timeframe evenly (years for zero).
    pub fn designator(&self) -> (d: TimeframeDesignator)
        ensures
            d == designator_of(self.0),
            self.0 % d.spec_as_millis() == 0,
            forall|e: TimeframeDesignator| e.rank() > d.rank() ==> self.0 % e.spec_as_millis() != 0,
    {
        longest_unit(self.0)
    }

    /// The text form: the count of the longest dividing unit, then its name.
    pub fn to_string(&self) -> (r: String)
        ensures
            r@ == display_spec(self.0),
    {
        let d = self.designator();
        let n = self.0 / d.as_millis();
        let digits = dec_chars(n);
        let mut s = string_from(digits.as_slice());
        push_str(&mut s, d.as_str());
        s
    }
}

/// The first letter of `a + b`, when `a` has none, is the first letter of `b`, shifted.
proof fn lemma_first_alpha_concat(a: Seq<char>, b: Seq<char>)
    requires
        forall|i: int| 0 <= i < a.len() ==> !is_ascii_alpha(#[trigger] a[i]),
        b.len() > 0,
        is_ascii_alpha(b[0]),
    ensures
        first_alpha(a + b) == Some(a.len() as int),
    decreases a.len(),
{
    if a.len() == 0 {
        assert(a + b =~= b);
    } else {
        assert((a + b).drop_first() =~= a.drop_first() + b);
        assert((a + b)[0] == a[0]);
        lemma_first_alpha_concat(a.drop_first(), b);
    }
}

/// Law: the text form of a timeframe reads back as the same timeframe (zero
/// included, as `"0y"`).
pub proof fn law_text_roundtrip(tf: Timeframe)
    ensures
        ({
            let cs = display_spec(tf.0);
            let b = encode_utf8(cs);
            &&& !parse_panics(cs, b)
            &&& parse_spec(cs, b) == Ok::<nat, TimeframeError>(tf.0 as nat)
        }),
{
    let ms = tf.0;
    let d = designator_of(ms);
    let m = d.spec_as_millis();
    crate::primitives::timeframe::law_designator_is_longest_divisor(ms);
    let n = ms / m;
    assert(n * m == ms) by (nonlinear_arith)
        requires
            ms % m == 0,
            m > 0,
            n == ms / m,
    ;
    let digits = dec(n as nat);
    let name = d.spec_as_str();
    let cs = digits + name;
    lemma_dec_value(n as nat);
    lemma_dec_shape(n as nat);
    lemma_designator_name(d);
    vstd::utf8::is_ascii_chars_concat(cs, digits, name);
    lemma_ascii_encoding(cs);
    let b = ascii_bytes(cs);
    let k = digits.len() as int;
    assert forall|i: int| 0 <= i < digits.len() implies !is_ascii_alpha(#[trigger] digits[i]) by {
        assert('0' <= digits[i] <= '9');
    }
    assert(is_ascii_alpha(name[0])) by {
        match d {
            TimeframeDesignator::Milliseconds => {},
            TimeframeDesignator::Seconds => {},
            TimeframeDesignator::Minutes => {},
            TimeframeDesignator::Hours => {},
            TimeframeDesignator::Days => {},
            TimeframeDesignator::Weeks => {},
            TimeframeDesignator::Months => {},
            TimeframeDesignator::Quarters => {},
            TimeframeDesignator::Years => {},
        }
    }
    lemma_first_alpha_concat(digits, name);
    assert(b.subrange(0, k) =~= ascii_bytes(digits));
    assert(b.subrange(k, b.len() as int) =~= ascii_bytes(name));
    assert(ascii_bytes(digits)[0] == digits[0] as u8);
    assert(unsigned_body(ascii_bytes(digits)) == ascii_bytes(digits));
    vstd::utf8::encode_utf8_valid_utf8(cs);
    assert(b[k] == name[0] as u8);
    vstd::utf8::is_char_boundary_iff_not_is_continuation_byte(b, k);
    assert(count_and_unit(cs, b) == Ok::<(nat, TimeframeDesignator), TimeframeError>((n as nat, d)));
}

/// Law: the unit names of exchange timeframes ("ms", "s", "m", "h", "d", "w",
/// "M", "Q", "y") are distinct, and `TimeframeDesignator::from_str` reads each
/// back as its unit (the designator here is the one of `primitives`).
pub proof fn law_exchange_designator_names(d: TimeframeDesignator, e: TimeframeDesignator)
    ensures
        TimeframeDesignator::from_bytes(encode_utf8(d.spec_as_str())) == Some(d),
        d != e ==> d.spec_as_str() != e.spec_as_str(),
{
    law_designator_name_roundtrip(d, e);
}

/// The characters of a designator spelling.
pub open spec fn spelling_chars(d: TimeframeDesignator, i: int) -> Seq<char> {
    designator_spellings(d)[i].map_values(|b: u8| b as char)
}

/// Every byte of every designator spelling is an ASCII letter.
proof fn lemma_spellings_are_letters(d: TimeframeDesignator, i: int)
    requires
        0 <= i < designator_spellings(d).len(),
    ensures
        designator_spellings(d)[i].len() >= 1,
        forall|j: int| 0 <= j < designator_spellings(d)[i].len() ==> {
            let c = #[trigger] designator_spellings(d)[i][j];
            ('a' as u8 <= c <= 'z' as u8) || ('A' as u8 <= c <= 'Z' as u8)
        },
{
}

/// Law: a count followed by any spelling of a unit (`"1D"`, `"5min"`,
/// `"2wk"`, `"3mo"`, `"4H"`, ...) reads as that many of the unit, wherever
/// the product fits (as Bybit's daily `"D"` is one day).
pub proof fn law_count_and_any_spelling(n: u64, d: TimeframeDesignator, i: int)
    requires
        0 <= i < designator_spellings(d).len(),
        n * d.spec_as_millis() <= u64::MAX,
    ensures
        ({
            let cs = dec(n as nat) + spelling_chars(d, i);
            let b = encode_utf8(cs);
            &&& !parse_panics(cs, b)
            &&& parse_spec(cs, b) == Ok::<nat, TimeframeError>((n * d.spec_as_millis()) as nat)
        }),
{
    let sp = designator_spellings(d)[i];
    let name = spelling_chars(d, i);
    lemma_spellings_are_letters(d, i);
    law_designator_spellings(d, sp);
    assert(TimeframeDesignator::from_bytes(sp) == Some(d));
    assert(vstd::utf8::is_ascii_chars(name)) by {
        assert forall|j: int| 0 <= j < name.len() implies '\0' <= #[trigger] name[j] <= '\u{7f}' by {
            assert(name[j] == sp[j] as char);
        }
    }
    assert(ascii_bytes(name) =~= sp) by {
        assert forall|j: int| 0 <= j < sp.len() implies #[trigger] ascii_bytes(name)[j] == sp[j] by {
            assert(name[j] == sp[j] as char);
        }
    }
    let digits = dec(n as nat);
    let cs = digits + name;
    lemma_dec_value(n as nat);
    lemma_dec_shape(n as nat);
    vstd::utf8::is_ascii_chars_concat(cs, digits, name);
    lemma_ascii_encoding(cs);
    let b = ascii_bytes(cs);
    let k = digits.len() as int;
    assert forall|j: int| 0 <= j < digits.len() implies !is_ascii_alpha(#[trigger] digits[j]) by {
        assert('0' <= digits[j] <= '9');
    }
    assert(is_ascii_alpha(name[0])) by {
        assert(name[0] == sp[0] as char);
    }
    lemma_first_alpha_concat(digits, name);
    assert(b.subrange(0, k) =~= ascii_bytes(digits));
    assert(b.subrange(k, b.len() as int) =~= ascii_bytes(name));
    assert(ascii_bytes(digits)[0] == digits[0] as u8);
    assert(unsigned_body(ascii_bytes(digits)) == ascii_bytes(digits));
    vstd::utf8::encode_utf8_valid_utf8(cs);
    assert(b[k] == name[0] as u8);
    vstd::utf8::is_char_boundary_iff_not_is_continuation_byte(b, k);
    assert(count_and_unit(cs, b) == Ok::<(nat, TimeframeDesignator), TimeframeError>((n as nat, d)));
}

} // verus!
