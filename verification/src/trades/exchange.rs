//! Exchanges, instruments, exchange symbols (`"BTC-USDT.P"`), and the
//! fixed-point reading of decimal prices and quantities.

use vstd::prelude::*;
use vstd::utf8::encode_utf8;

use crate::text::{
    chars_of, chars_slice, find_char, first_index, lemma_first_index_bounds, parse_signed,
    parse_signed_bytes, parse_unsigned, parse_unsigned_bytes, push_char, push_str, str_eq,
    string_from, to_uppercase, uppercase,
};
use crate::trades::pair::{asset_bytes, fits_asset, pair_fits, pair_parts, InvalidPairError, Pair};

verus! {

broadcast use vstd::string::group_string_axioms;

/// A text that names no variant of an enumeration.
#[derive(Clone, Copy, Debug, PartialEq, Eq, Structural)]
pub enum ParseError {
    VariantNotFound,
}

/// The exchanges, named in lowercase (`"binance"`, `"bitflyer"`).
#[derive(Clone, Copy, Debug, PartialEq, Eq, Structural, Hash)]
pub enum ExchangeName {
    Binance,
    Bybit,
    Kucoin,
    Mexc,
    BitFlyer,
    Coincheck,
    Yahoo,
}

impl ExchangeName {
    pub open spec fn spec_name(self) -> Seq<char> {
        match self {
            ExchangeName::Binance => "binance"@,
            ExchangeName::Bybit => "bybit"@,
            ExchangeName::Kucoin => "kucoin"@,
            ExchangeName::Mexc => "mexc"@,
            ExchangeName::BitFlyer => "bitflyer"@,
            ExchangeName::Coincheck => "coincheck"@,
            ExchangeName::Yahoo => "yahoo"@,
        }
    }

    /// The lowercase name of the exchange.
    pub fn to_str(&self) -> (r: &'static str)
        ensures
            r@ == self.spec_name(),
    {
        match self {
            ExchangeName::Binance => "binance",
            ExchangeName::Bybit => "bybit",
            ExchangeName::Kucoin => "kucoin",
            ExchangeName::Mexc => "mexc",
            ExchangeName::BitFlyer => "bitflyer",
            ExchangeName::Coincheck => "coincheck",
            ExchangeName::Yahoo => "yahoo",
        }
    }

    /// The name (what `Display` writes).
    pub fn to_string(&self) -> (r: String)
        ensures
            r@ == self.spec_name(),
    {
        self.to_str().to_owned()
    }

    /// The exchange of an exact lowercase name.
    pub fn from_str(s: &str) -> (r: Result<ExchangeName, ParseError>)
        ensures
            match r {
                Ok(e) => s@ == e.spec_name(),
                Err(_) => forall|e: ExchangeName| s@ != e.spec_name(),
            },
    {
        if str_eq(s, "binance") {
            Ok(ExchangeName::Binance)
        } else if str_eq(s, "bybit") {
            Ok(ExchangeName::Bybit)
        } else if str_eq(s, "kucoin") {
            Ok(ExchangeName::Kucoin)
        } else if str_eq(s, "mexc") {
            Ok(ExchangeName::Mexc)
        } else if str_eq(s, "bitflyer") {
            Ok(ExchangeName::BitFlyer)
        } else if str_eq(s, "coincheck") {
            Ok(ExchangeName::Coincheck)
        } else if str_eq(s, "yahoo") {
            Ok(ExchangeName::Yahoo)
        } else {
            assert forall|e: ExchangeName| s@ != e.spec_name() by {
                match e {
                    ExchangeName::Binance => {},
                    ExchangeName::Bybit => {},
                    ExchangeName::Kucoin => {},
                    ExchangeName::Mexc => {},
                    ExchangeName::BitFlyer => {},
                    ExchangeName::Coincheck => {},
                    ExchangeName::Yahoo => {},
                }
            }
            Err(ParseError::VariantNotFound)
        }
    }
}

/// What kind of market a symbol trades, written as a suffix of the symbol.
#[derive(Clone, Copy, Debug, PartialEq, Eq, Structural, Hash, PartialOrd, Ord)]
pub enum Instrument {
    Spot,
    Perp,
    Margin,
    PerpInverse,
    Options,
}

impl Instrument {
    pub open spec fn spec_suffix(self) -> Seq<char> {
        match self {
            Instrument::Spot => ""@,
            Instrument::Perp => ".P"@,
            Instrument::Margin => ".M"@,
            Instrument::PerpInverse => ".PERP_INVERSE"@,
            Instrument::Options => ".OPTIONS"@,
        }
    }

    /// The suffix: empty for spot, else `.P`, `.M`, `.PERP_INVERSE` or `.OPTIONS`.
    pub fn to_str(&self) -> (r: &'static str)
        ensures
            r@ == self.spec_suffix(),
    {
        match self {
            Instrument::Spot => "",
            Instrument::Perp => ".P",
            Instrument::Margin => ".M",
            Instrument::PerpInverse => ".PERP_INVERSE",
            Instrument::Options => ".OPTIONS",
        }
    }

    /// The suffix (what `Display` writes).
    pub fn to_string(&self) -> (r: String)
        ensures
            r@ == self.spec_suffix(),
    {
        self.to_str().to_owned()
    }

    /// The instrument of an exact suffix.
    pub fn from_str(s: &str) -> (r: Result<Instrument, ParseError>)
        ensures
            match r {
                Ok(i) => s@ == i.spec_suffix(),
                Err(_) => forall|i: Instrument| s@ != i.spec_suffix(),
            },
    {
        if str_eq(s, "") {
            Ok(Instrument::Spot)
        } else if str_eq(s, ".P") {
            Ok(Instrument::Perp)
        } else if str_eq(s, ".M") {
            Ok(Instrument::Margin)
        } else if str_eq(s, ".PERP_INVERSE") {
            Ok(Instrument::PerpInverse)
        } else if str_eq(s, ".OPTIONS") {
            Ok(Instrument::Options)
        } else {
            assert forall|i: Instrument| s@ != i.spec_suffix() by {
                match i {
                    Instrument::Spot => {},
                    Instrument::Perp => {},
                    Instrument::Margin => {},
                    Instrument::PerpInverse => {},
                    Instrument::Options => {},
                }
            }
            Err(ParseError::VariantNotFound)
        }
    }
}

impl Default for Instrument {
    /// Spot.
    fn default() -> (r: Instrument)
        ensures
            r == Instrument::Spot,
    {
        Instrument::Spot
    }
}

/// A pair and the instrument it is traded as.
#[derive(Clone, Copy, Debug, PartialEq, Eq, Hash)]
pub struct Symbol {
    pub pair: Pair,
    pub instrument: Instrument,
}

/// Why a symbol text was refused.
#[derive(Clone, Debug)]
pub enum SymbolError {
    Pair(InvalidPairError),
    Instrument(ParseError),
}

/// The pair text and the instrument suffix of a symbol text: split at the
/// first `.`, the suffix uppercased with its dot kept; no dot means spot.
pub open spec fn symbol_parts(cs: Seq<char>) -> (Seq<char>, Seq<char>) {
    match first_index(cs, '.') {
        Some(d) => (cs.subrange(0, d), seq!['.'] + uppercase(cs.subrange(d + 1, cs.len() as int))),
        None => (cs, Seq::empty()),
    }
}

/// The instrument a suffix names.
pub open spec fn instrument_of(suffix: Seq<char>) -> Option<Instrument> {
    if suffix == Instrument::Spot.spec_suffix() {
        Some(Instrument::Spot)
    } else if suffix == Instrument::Perp.spec_suffix() {
        Some(Instrument::Perp)
    } else if suffix == Instrument::Margin.spec_suffix() {
        Some(Instrument::Margin)
    } else if suffix == Instrument::PerpInverse.spec_suffix() {
        Some(Instrument::PerpInverse)
    } else if suffix == Instrument::Options.spec_suffix() {
        Some(Instrument::Options)
    } else {
        None
    }
}

/// Law: each instrument's suffix reads back as that instrument.
pub proof fn law_instrument_suffix_roundtrip(i: Instrument)
    ensures
        instrument_of(i.spec_suffix()) == Some(i),
{
    reveal_strlit("");
    reveal_strlit(".P");
    reveal_strlit(".M");
    reveal_strlit(".PERP_INVERSE");
    reveal_strlit(".OPTIONS");
    let sp = ""@;
    let p = ".P"@;
    let m = ".M"@;
    let pi = ".PERP_INVERSE"@;
    let o = ".OPTIONS"@;
    assert(sp.len() == 0 && p.len() == 2 && m.len() == 2 && pi.len() == 13 && o.len() == 8);
    assert(p[1] != m[1]);
    assert(p != sp && m != sp && pi != sp && o != sp);
    assert(m != p);
    assert(pi != p && pi != m && o != p && o != m && o != pi);
}

impl Symbol {
    /// The symbol of a pair traded as `instrument`.
    pub fn new(pair: Pair, instrument: Instrument) -> (r: Symbol)
        ensures
            r.pair == pair,
            r.instrument == instrument,
    {
        Symbol { pair, instrument }
    }

    /// The pair text and the instrument suffix of a symbol text.
    fn split(s: &str) -> (r: (String, String))
        ensures
            r.0@ == symbol_parts(s@).0,
            r.1@ == symbol_parts(s@).1,
    {
        let cs = chars_of(s);
        proof {
            lemma_first_index_bounds(s@, '.');
        }
        match find_char(cs.as_slice(), '.') {
            Some(d) => {
                let n = cs.len();
                assert(d < n);
                let p = chars_slice(cs.as_slice(), 0, d);
                let i = chars_slice(cs.as_slice(), d + 1, n);
                let i_str = string_from(i.as_slice());
                let upper = to_uppercase(i_str.as_str());
                let mut suffix = String::new();
                push_char(&mut suffix, '.');
                push_str(&mut suffix, upper.as_str());
                assert(suffix@ =~= seq!['.'] + uppercase(cs@.subrange(d + 1, cs@.len() as int)));
                (string_from(p.as_slice()), suffix)
            },
            None => (s.to_owned(), String::new()),
        }
    }

    /// Reads a symbol such as `"BTC-USDT.P"`: a pair (see [`Pair::from_str`]),
    /// then optionally a dot and an instrument name in any case.
    pub fn from_str(s: &str) -> (r: Result<Symbol, SymbolError>)
        requires
            pair_fits(symbol_parts(s@).0),
        ensures
            match pair_parts(symbol_parts(s@).0) {
                None => r is Err && r->Err_0 is Pair && r->Err_0->Pair_0.provided() == symbol_parts(s@).0,
                Some((b, q)) => match instrument_of(symbol_parts(s@).1) {
                    Some(ins) => r is Ok
                        && r->Ok_0.pair.spec_base().0@ == asset_bytes(uppercase(b))
                        && r->Ok_0.pair.spec_quote().0@ == asset_bytes(uppercase(q))
                        && r->Ok_0.instrument == ins,
                    None => r == Err::<Symbol, SymbolError>(SymbolError::Instrument(ParseError::VariantNotFound)),
                },
            },
    {
        let (p, i) = Self::split(s);
        let pair = match Pair::from_str(p.as_str()) {
            Ok(pair) => pair,
            Err(e) => {
                return Err(SymbolError::Pair(e));
            },
        };
        let instrument = match Instrument::from_str(i.as_str()) {
            Ok(ins) => ins,
            Err(e) => {
                assert(instrument_of(i@) is None);
                return Err(SymbolError::Instrument(e));
            },
        };
        proof {
            law_instrument_suffix_roundtrip(instrument);
        }
        Ok(Symbol { pair, instrument })
    }

    /// Reads a symbol as [`Symbol::from_str`] does; `None` when a ticker of
    /// its pair does not fit an asset.
    pub fn try_from_str(s: &str) -> (r: Option<Result<Symbol, SymbolError>>)
        ensures
            match r {
                Some(res) => pair_fits(symbol_parts(s@).0) && match pair_parts(symbol_parts(s@).0) {
                    None => res is Err && res->Err_0 is Pair,
                    Some((b, q)) => match instrument_of(symbol_parts(s@).1) {
                        Some(ins) => res is Ok && res->Ok_0.instrument == ins,
                        None => res is Err && res->Err_0 is Instrument,
                    },
                },
                None => !pair_fits(symbol_parts(s@).0),
            },
    {
        let (p, _i) = Self::split(s);
        match Pair::try_from_str(p.as_str()) {
            Some(_) => Some(Self::from_str(s)),
            None => None,
        }
    }

    /// The pair followed by the instrument suffix, as `"BTCUSDT.P"` (what
    /// `Display` writes).
    pub fn to_string(&self) -> (r: String)
        ensures
            r@ == crate::trades::pair::asset_text(self.pair.spec_base().0@)
                + crate::trades::pair::asset_text(self.pair.spec_quote().0@)
                + self.instrument.spec_suffix(),
    {
        let mut s = self.pair.to_string();
        push_str(&mut s, self.instrument.to_str());
        s
    }
}

/// The text without trailing `c` characters.
pub open spec fn trim_end_char(cs: Seq<char>, c: char) -> Seq<char>
    decreases cs.len(),
{
    if cs.len() > 0 && cs.last() == c {
        trim_end_char(cs.drop_last(), c)
    } else {
        cs
    }
}

/// `n` zero digits.
pub open spec fn zeros(n: nat) -> Seq<char> {
    Seq::new(n, |i: int| '0')
}

/// The significant fraction digits of a decimal text: those after the first
/// `.`, without trailing zeros.
pub open spec fn significant_fraction(s: Seq<char>, dot: int) -> Seq<char> {
    trim_end_char(s.subrange(dot + 1, s.len() as int), '0')
}

/// A decimal text with the point removed and the fraction right-padded with
/// zeros to `precision` digits (`"1.5"` at 3 gives `"1500"`).
pub open spec fn digits_spec(s: Seq<char>, precision: nat) -> Seq<char> {
    match first_index(s, '.') {
        Some(dot) => {
            let sig = significant_fraction(s, dot);
            s.subrange(0, dot) + sig + zeros((precision - encode_utf8(sig).len()) as nat)
        },
        None => s + zeros(precision),
    }
}

/// Whether the text has more significant decimals than `precision`, which
/// is refused with a panic.
pub open spec fn digits_panics(s: Seq<char>, precision: nat) -> bool {
    match first_index(s, '.') {
        Some(dot) => encode_utf8(significant_fraction(s, dot)).len() > precision,
        None => false,
    }
}

/// The precision of prices and of quantities shared by a batch of book
/// levels or trades, in decimal places.
#[derive(Clone, Copy, Debug, Default, PartialEq, Eq, Structural)]
pub struct PrecisionPriceQty {
    pub price: u8,
    pub qty: u8,
}

/// Appends `n` zero digits.
fn push_zeros(s: &mut String, n: usize)
    ensures
        final(s)@ == old(s)@ + zeros(n as nat),
{
    let ghost start = s@;
    let mut i: usize = 0;
    while i < n
        invariant
            i <= n,
            s@ == start + zeros(i as nat),
        decreases n - i,
    {
        push_char(s, '0');
        i = i + 1;
        assert(s@ =~= start + zeros(i as nat));
    }
}

impl PrecisionPriceQty {
    /// The decimal text with the point removed and the fraction padded to
    /// `expected_precision` digits; trailing zeros past the precision are
    /// dropped (Binance writes `.24` as `.24000000`).
    fn digits(s: &str, expected_precision: u8) -> (r: String)
        requires
            !digits_panics(s@, expected_precision as nat),
        ensures
            r@ == digits_spec(s@, expected_precision as nat),
    {
        let cs = chars_of(s);
        let n = cs.len();
        proof {
            lemma_first_index_bounds(s@, '.');
        }
        match find_char(cs.as_slice(), '.') {
            Some(dot) => {
                assert(dot < n);
                let int_part = chars_slice(cs.as_slice(), 0, dot);
                let frac = chars_slice(cs.as_slice(), dot + 1, n);
                let mut end: usize = frac.len();
                assert(frac@.subrange(0, frac@.len() as int) =~= frac@);
                while end > 0 && frac[end - 1] == '0'
                    invariant
                        end <= frac@.len(),
                        trim_end_char(frac@, '0') == trim_end_char(frac@.subrange(0, end as int), '0'),
                    decreases end,
                {
                    assert(frac@.subrange(0, end as int).drop_last() =~= frac@.subrange(0, end - 1));
                    end = end - 1;
                }
                let sig = chars_slice(frac.as_slice(), 0, end);
                assert(sig@ == significant_fraction(s@, dot as int));
                let sig_str = string_from(sig.as_slice());
                let sig_len = sig_str.as_str().as_bytes().len();
                let pad = expected_precision as usize - sig_len;
                let mut out = string_from(int_part.as_slice());
                push_str(&mut out, sig_str.as_str());
                push_zeros(&mut out, pad);
                out
            },
            None => {
                let mut out = s.to_owned();
                push_zeros(&mut out, expected_precision as usize);
                out
            },
        }
    }

    /// A decimal price as an integer count of `10^-price` units.
    pub fn parse_price(&self, s: &str) -> (r: i32)
        requires
            !digits_panics(s@, self.price as nat),
            parse_signed(encode_utf8(digits_spec(s@, self.price as nat)), 0x8000_0000, 0x7fff_ffff) is Some,
        ensures
            parse_signed(encode_utf8(digits_spec(s@, self.price as nat)), 0x8000_0000, 0x7fff_ffff) == Some(r as int),
    {
        let d = Self::digits(s, self.price);
        match parse_signed_bytes(d.as_str().as_bytes(), 0x8000_0000, 0x7fff_ffff) {
            Some(v) => v as i32,
            None => {
                assert(false);
                0
            },
        }
    }

    /// A decimal quantity as an integer count of `10^-qty` units.
    pub fn parse_qty(&self, s: &str) -> (r: u32)
        requires
            !digits_panics(s@, self.qty as nat),
            parse_unsigned(encode_utf8(digits_spec(s@, self.qty as nat)), 0xffff_ffff) is Some,
        ensures
            parse_unsigned(encode_utf8(digits_spec(s@, self.qty as nat)), 0xffff_ffff) == Some(r as nat),
    {
        let d = Self::digits(s, self.qty);
        match parse_unsigned_bytes(d.as_str().as_bytes(), 0xffff_ffff) {
            Some(v) => v as u32,
            None => {
                assert(false);
                0
            },
        }
    }
}

/// Law: exchange names are distinct, so an exchange's name reads back as that
/// exchange and as no other.
pub proof fn law_exchange_name_roundtrip(e: ExchangeName, f: ExchangeName)
    ensures
        e.spec_name() == f.spec_name() ==> e == f,
{
    reveal_strlit("binance");
    reveal_strlit("bybit");
    reveal_strlit("kucoin");
    reveal_strlit("mexc");
    reveal_strlit("bitflyer");
    reveal_strlit("coincheck");
    reveal_strlit("yahoo");
    if e.spec_name() == f.spec_name() && e != f {
        let a = e.spec_name();
        let b = f.spec_name();
        assert(a.len() == b.len());
        assert(a[0] == b[0]);
        assert(a[1] == b[1]);
    }
}

} // verus!
