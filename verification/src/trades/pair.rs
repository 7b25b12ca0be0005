//! Trading pairs: two asset tickers, each held uppercased in 16 bytes, read
//! from forms such as `"BTC-USD"`, `"btc / usd"` or `"DOGEUSDT"`.

use vstd::prelude::*;
use vstd::utf8::{decode_utf8, encode_utf8, valid_utf8};

use crate::text::{
    chars_contain, chars_end_with, chars_eq, chars_of, chars_prefix, lemma_encode_concat,
    join_with, push_char, push_str, str_from_utf8, split_chars, split_on, string_from, to_uppercase, trim, trimmed, uppercase,
};

verus! {

broadcast use vstd::string::group_string_axioms;

/// The 16 bytes an asset keeps for a ticker: its UTF-8, padded with zero bytes.
pub open spec fn asset_bytes(text: Seq<char>) -> Seq<u8> {
    let e = encode_utf8(text);
    e + Seq::new((16 - e.len()) as nat, |i: int| 0u8)
}

/// The text without trailing NUL characters.
pub open spec fn trim_nul(cs: Seq<char>) -> Seq<char>
    decreases cs.len(),
{
    if cs.len() > 0 && cs.last() == '\0' {
        trim_nul(cs.drop_last())
    } else {
        cs
    }
}

/// The ticker that asset bytes spell: their UTF-8 reading without the padding.
pub open spec fn asset_text(b: Seq<u8>) -> Seq<char> {
    trim_nul(decode_utf8(b))
}

/// Whether the uppercase form of a ticker fits the 16 bytes of an asset.
pub open spec fn fits_asset(s: Seq<char>) -> bool {
    encode_utf8(uppercase(s)).len() <= 16
}

/// An asset ticker (`"BTC"`, `"USDT"`), uppercased and zero-padded to 16 bytes.
#[derive(Clone, Copy, Debug, Default, PartialEq, Eq, Hash, PartialOrd, Ord)]
pub struct Asset(pub [u8; 16]);

/// NUL bytes are valid UTF-8 and read as NUL characters.
proof fn lemma_nul_bytes(k: nat)
    ensures
        encode_utf8(Seq::new(k, |i: int| '\0')) == Seq::new(k, |i: int| 0u8),
{
    let nuls = Seq::new(k, |i: int| '\0');
    assert(vstd::utf8::is_ascii_chars(nuls));
    vstd::utf8::is_ascii_chars_encode_utf8(nuls);
    assert(encode_utf8(nuls) =~= Seq::new(k, |i: int| 0u8));
}

/// Trailing NULs appended to a text are what trimming removes.
proof fn lemma_trim_nul_padding(t: Seq<char>, k: nat)
    ensures
        trim_nul(t + Seq::new(k, |i: int| '\0')) == trim_nul(t),
    decreases k,
{
    if k == 0 {
        assert(t + Seq::new(k, |i: int| '\0') =~= t);
    } else {
        let longer = t + Seq::new(k, |i: int| '\0');
        assert(longer.drop_last() =~= t + Seq::new((k - 1) as nat, |i: int| '\0'));
        lemma_trim_nul_padding(t, (k - 1) as nat);
    }
}

/// Asset bytes are valid UTF-8 and spell the text they were made from, less
/// any trailing NULs.
pub proof fn lemma_asset_bytes(text: Seq<char>)
    requires
        encode_utf8(text).len() <= 16,
    ensures
        valid_utf8(asset_bytes(text)),
        asset_bytes(text).len() == 16,
        asset_text(asset_bytes(text)) == trim_nul(text),
{
    let e = encode_utf8(text);
    let k = (16 - e.len()) as nat;
    let nuls = Seq::new(k, |i: int| '\0');
    lemma_nul_bytes(k);
    lemma_encode_concat(text, nuls);
    assert(asset_bytes(text) == encode_utf8(text + nuls));
    vstd::utf8::encode_utf8_valid_utf8(text + nuls);
    vstd::utf8::encode_utf8_decode_utf8(text + nuls);
    lemma_trim_nul_padding(text, k);
}

impl Asset {
    /// Whether `s` can name an asset: its uppercase form fits 16 bytes.
    pub fn fits(s: &str) -> (r: bool)
        ensures
            r == fits_asset(s@),
    {
        let u = to_uppercase(s);
        u.as_str().as_bytes().len() <= 16
    }

    /// The asset of a ticker, uppercased (`"btc"` gives `BTC`).
    pub fn new(s: &str) -> (r: Asset)
        requires
            fits_asset(s@),
        ensures
            r.0@ == asset_bytes(uppercase(s@)),
    {
        let u = to_uppercase(s);
        let b = u.as_str().as_bytes();
        let mut bytes = [0u8; 16];
        let mut i: usize = 0;
        while i < b.len()
            invariant
                b@ == encode_utf8(uppercase(s@)),
                b@.len() <= 16,
                i <= b@.len(),
                bytes@.len() == 16,
                forall|k: int| 0 <= k < i ==> bytes@[k] == b@[k],
                forall|k: int| i <= k < 16 ==> bytes@[k] == 0u8,
            decreases b@.len() - i,
        {
            bytes[i] = b[i];
            i = i + 1;
        }
        assert(bytes@ =~= asset_bytes(uppercase(s@)));
        Asset(bytes)
    }

    /// The asset of a ticker, or `None` when its uppercase form does not fit.
    pub fn try_new(s: &str) -> (r: Option<Asset>)
        ensures
            match r {
                Some(a) => fits_asset(s@) && a.0@ == asset_bytes(uppercase(s@)),
                None => !fits_asset(s@),
            },
    {
        if Self::fits(s) {
            Some(Self::new(s))
        } else {
            None
        }
    }

    /// The characters of the ticker.
    pub fn text(&self) -> (r: Vec<char>)
        requires
            valid_utf8(self.0@),
        ensures
            r@ == asset_text(self.0@),
    {
        let b = self.0.as_slice();
        match str_from_utf8(b) {
            Some(t) => {
                proof {
                    vstd::utf8::encode_utf8_decode_utf8(t@);
                }
                let cs = chars_of(t);
                let mut end: usize = cs.len();
                assert(cs@.subrange(0, cs@.len() as int) =~= cs@);
                while end > 0 && cs[end - 1] == '\0'
                    invariant
                        end <= cs@.len(),
                        trim_nul(cs@) == trim_nul(cs@.subrange(0, end as int)),
                    decreases end,
                {
                    assert(cs@.subrange(0, end as int).drop_last() =~= cs@.subrange(0, end - 1));
                    end = end - 1;
                }
                chars_prefix(cs.as_slice(), end)
            },
            None => {
                assert(false);
                Vec::new()
            },
        }
    }

    /// The ticker (what `Display` writes).
    pub fn to_string(&self) -> (r: String)
        requires
            valid_utf8(self.0@),
        ensures
            r@ == asset_text(self.0@),
    {
        let t = self.text();
        string_from(t.as_slice())
    }
}

/// Law: an asset made from a ticker spells that ticker uppercased (less any
/// trailing NUL characters), and its bytes are valid UTF-8.
pub proof fn law_asset_spells_uppercase(s: Seq<char>)
    requires
        fits_asset(s),
    ensures
        valid_utf8(asset_bytes(uppercase(s))),
        asset_text(asset_bytes(uppercase(s))) == trim_nul(uppercase(s)),
{
    lemma_asset_bytes(uppercase(s));
}

/// Two assets: what is bought or sold (`base`) and what it is priced in (`quote`).
#[derive(Clone, Copy, Debug, PartialEq, Eq, Hash, PartialOrd, Ord)]
pub struct Pair {
    base: Asset,
    quote: Asset,
}

impl Pair {
    #[verifier::type_invariant]
    spec fn well_formed(self) -> bool {
        valid_utf8(self.base.0@) && valid_utf8(self.quote.0@)
    }

    pub closed spec fn spec_base(self) -> Asset {
        self.base
    }

    pub closed spec fn spec_quote(self) -> Asset {
        self.quote
    }

    /// The pair of two tickers, each uppercased.
    pub fn new(base: &str, quote: &str) -> (r: Pair)
        requires
            fits_asset(base@),
            fits_asset(quote@),
        ensures
            r.spec_base().0@ == asset_bytes(uppercase(base@)),
            r.spec_quote().0@ == asset_bytes(uppercase(quote@)),
    {
        let b = Asset::new(base);
        let q = Asset::new(quote);
        proof {
            lemma_asset_bytes(uppercase(base@));
            lemma_asset_bytes(uppercase(quote@));
        }
        Pair { base: b, quote: q }
    }

    /// The pair of two tickers, or `None` when one does not fit an asset.
    pub fn try_new(base: &str, quote: &str) -> (r: Option<Pair>)
        ensures
            match r {
                Some(p) => fits_asset(base@) && fits_asset(quote@)
                    && p.spec_base().0@ == asset_bytes(uppercase(base@))
                    && p.spec_quote().0@ == asset_bytes(uppercase(quote@)),
                None => !(fits_asset(base@) && fits_asset(quote@)),
            },
    {
        if Asset::fits(base) && Asset::fits(quote) {
            Some(Self::new(base, quote))
        } else {
            None
        }
    }

    /// The asset bought or sold.
    pub fn base(&self) -> (r: &Asset)
        ensures
            *r == self.spec_base(),
            valid_utf8(r.0@),
    {
        proof {
            use_type_invariant(self);
        }
        &self.base
    }

    /// The asset prices are given in.
    pub fn quote(&self) -> (r: &Asset)
        ensures
            *r == self.spec_quote(),
            valid_utf8(r.0@),
    {
        proof {
            use_type_invariant(self);
        }
        &self.quote
    }

    /// Whether the pair is quoted in USDT (Binance's `BTCST` excepted).
    pub fn is_usdt(&self) -> (r: bool)
        ensures
            r == (asset_text(self.spec_quote().0@) == seq!['U', 'S', 'D', 'T']
                && asset_text(self.spec_base().0@) != seq!['B', 'T', 'C', 'S', 'T']),
    {
        proof {
            use_type_invariant(self);
        }
        let usdt = "USDT";
        let btcst = "BTCST";
        proof {
            reveal_strlit("USDT");
            reveal_strlit("BTCST");
            assert(usdt@ =~= seq!['U', 'S', 'D', 'T']);
            assert(btcst@ =~= seq!['B', 'T', 'C', 'S', 'T']);
        }
        let q = self.quote.text();
        let b = self.base.text();
        let usdt_chars = chars_of(usdt);
        let btcst_chars = chars_of(btcst);
        chars_eq(q.as_slice(), usdt_chars.as_slice()) && !chars_eq(b.as_slice(), btcst_chars.as_slice())
    }

    /// The two tickers run together, as `"BTCUSDT"` (what `Display` writes).
    pub fn to_string(&self) -> (r: String)
        ensures
            r@ == asset_text(self.spec_base().0@) + asset_text(self.spec_quote().0@),
    {
        proof {
            use_type_invariant(self);
        }
        let mut s = self.base.to_string();
        let q = self.quote.to_string();
        push_str(&mut s, q.as_str());
        s
    }
}

impl Default for Pair {
    /// The pair of two empty tickers.
    fn default() -> (r: Pair)
        ensures
            r.spec_base().0@ == Seq::new(16, |i: int| 0u8),
            r.spec_quote().0@ == Seq::new(16, |i: int| 0u8),
    {
        let zero = Asset([0u8; 16]);
        proof {
            lemma_nul_bytes(16);
            vstd::utf8::encode_utf8_valid_utf8(Seq::new(16, |i: int| '\0'));
            assert(zero.0@ =~= Seq::new(16, |i: int| 0u8));
        }
        Pair { base: zero, quote: zero }
    }
}

/// A text that does not read as a pair, with the delimiters that would have split it.
#[derive(Clone, Debug)]
pub struct InvalidPairError {
    provided_str: String,
    allowed_delimiters: Vec<String>,
}

impl InvalidPairError {
    /// The text that was refused.
    pub closed spec fn provided(&self) -> Seq<char> {
        self.provided_str@
    }

    /// The delimiters named in the message.
    pub closed spec fn delimiters(&self) -> Seq<Seq<char>> {
        self.allowed_delimiters@.map_values(|d: String| d@)
    }

    /// The error for `provided_str`, naming `allowed_delimiters`.
    pub fn new(provided_str: &str, allowed_delimiters: Vec<String>) -> (r: InvalidPairError)
        ensures
            r.provided() == provided_str@,
            r.delimiters() == allowed_delimiters@.map_values(|d: String| d@),
    {
        InvalidPairError { provided_str: provided_str.to_owned(), allowed_delimiters }
    }

    /// The message (what `Display` writes).
    pub fn message(&self) -> (r: String)
        ensures
            r@ == "Invalid pair format '"@ + self.provided()
                + "'. Expected two assets separated by one of: ["@
                + join_with(self.delimiters(), seq![' '])
                + "]"@,
    {
        let mut m = "Invalid pair format '".to_owned();
        push_str(&mut m, self.provided_str.as_str());
        push_str(&mut m, "'. Expected two assets separated by one of: [");
        let ghost head = m@;
        let ghost ds = self.delimiters();
        let mut i: usize = 0;
        while i < self.allowed_delimiters.len()
            invariant
                i <= ds.len(),
                ds == self.allowed_delimiters@.map_values(|d: String| d@),
                m@ == head + join_with(ds.subrange(0, i as int), seq![' ']),
            decreases ds.len() - i,
        {
            let ghost before = m@;
            if i > 0 {
                push_char(&mut m, ' ');
            }
            push_str(&mut m, self.allowed_delimiters[i].as_str());
            proof {
                let sub = ds.subrange(0, i + 1);
                assert(sub.drop_last() =~= ds.subrange(0, i as int));
                if i == 0 {
                    assert(join_with(ds.subrange(0, 0), seq![' ']) =~= Seq::<char>::empty());
                    assert(m@ =~= head + join_with(sub, seq![' ']));
                } else {
                    assert(m@ =~= head + join_with(sub, seq![' ']));
                }
            }
            i = i + 1;
        }
        assert(ds.subrange(0, ds.len() as int) =~= ds);
        push_str(&mut m, "]");
        m
    }
}

/// Whether `arr` lists no entry after a longer one that it ends: the order
/// that lets the first match of a suffix search be the longest.
pub open spec fn suffix_conflict(arr: Seq<Seq<u8>>, i: int, j: int) -> bool {
    0 <= i < j < arr.len() && arr[i].len() < arr[j].len()
        && arr[j].subrange(arr[j].len() - arr[i].len(), arr[j].len() as int) == arr[i]
}

/// Checks that no entry of `arr` ends a later, longer entry; the error names
/// the first such pair, as `"<shorter> is a suffix of <longer>"`.
pub fn check_prefix_order(arr: &[&str]) -> (r: Result<(), String>)
    ensures
        ({
            let bytes = arr@.map_values(|s: &str| encode_utf8(s@));
            match r {
                Ok(()) => forall|i: int, j: int| !suffix_conflict(bytes, i, j),
                Err(m) => exists|i: int, j: int| {
                    &&& suffix_conflict(bytes, i, j)
                    &&& m@ == arr@[i]@ + " is a suffix of "@ + arr@[j]@
                    &&& forall|i2: int, j2: int| (i2 < i || (i2 == i && j2 < j)) ==> !suffix_conflict(bytes, i2, j2)
                },
            }
        }),
{
    let ghost bytes = arr@.map_values(|s: &str| encode_utf8(s@));
    let mut i: usize = 0;
    while i < arr.len()
        invariant
            i <= arr@.len(),
            bytes == arr@.map_values(|s: &str| encode_utf8(s@)),
            forall|i2: int, j2: int| i2 < i ==> !suffix_conflict(bytes, i2, j2),
        decreases arr@.len() - i,
    {
        let a = arr[i].as_bytes();
        let mut j: usize = i + 1;
        while j < arr.len()
            invariant
                i < arr@.len(),
                i + 1 <= j <= arr@.len(),
                a@ == bytes[i as int],
                bytes == arr@.map_values(|s: &str| encode_utf8(s@)),
                forall|i2: int, j2: int| i2 < i ==> !suffix_conflict(bytes, i2, j2),
                forall|j2: int| j2 < j ==> !suffix_conflict(bytes, i as int, j2),
            decreases arr@.len() - j,
        {
            let b = arr[j].as_bytes();
            assert(b@ == bytes[j as int]);
            if a.len() < b.len() && crate::text::bytes_end_with(b, a) {
                let mut m = arr[i].to_owned();
                push_str(&mut m, " is a suffix of ");
                push_str(&mut m, arr[j]);
                assert(suffix_conflict(bytes, i as int, j as int));
                return Err(m);
            }
            j = j + 1;
        }
        i = i + 1;
    }
    Ok(())
}

/// The delimiter a pair text is split at: the first of `,` `-` `_` `/` it holds.
pub open spec fn delimiter_of(cs: Seq<char>) -> Option<char> {
    if cs.contains(',') {
        Some(',')
    } else if cs.contains('-') {
        Some('-')
    } else if cs.contains('_') {
        Some('_')
    } else if cs.contains('/') {
        Some('/')
    } else {
        None
    }
}

/// The pieces that remain once each is trimmed and the empty ones dropped.
pub open spec fn kept_parts(pieces: Seq<Seq<char>>) -> Seq<Seq<char>>
    decreases pieces.len(),
{
    if pieces.len() == 0 {
        Seq::empty()
    } else {
        let k = kept_parts(pieces.drop_last());
        let t = trimmed(pieces.last());
        if t.len() > 0 {
            k.push(t)
        } else {
            k
        }
    }
}

/// Fiat currencies recognized as quotes of an undelimited pair.
pub open spec fn currencies() -> Seq<Seq<char>> {
    seq![
        "EURI"@, "EUR"@, "USD"@, "GBP"@, "USDP"@, "USDS"@, "PLN"@, "RON"@, "CZK"@, "TRY"@, "JPY"@,
        "BRL"@, "RUB"@, "AUD"@, "NGN"@, "MXN"@, "COP"@, "ARS"@, "BKRW"@, "IDRT"@, "UAH"@, "BIDR"@,
        "BVND"@, "ZAR"@,
    ]
}

/// Crypto assets recognized as quotes of an undelimited pair.
pub open spec fn crypto() -> Seq<Seq<char>> {
    seq![
        "USDT"@, "USDC"@, "UST"@, "BTC"@, "WETH"@, "ETH"@, "BNB"@, "SOL"@, "XRP"@, "PAX"@, "DAI"@,
        "VAI"@, "DOGE"@, "DOT"@, "TRX"@,
    ]
}

/// All recognized quotes, in the order they are tried.
pub open spec fn recognized_quotes() -> Seq<Seq<char>> {
    currencies() + crypto()
}

/// The first of `qs` that ends `cs`.
pub open spec fn first_quote(cs: Seq<char>, qs: Seq<Seq<char>>) -> Option<Seq<char>>
    decreases qs.len(),
{
    if qs.len() == 0 {
        None
    } else if crate::text::ends_with(cs, qs[0]) {
        Some(qs[0])
    } else {
        first_quote(cs, qs.drop_first())
    }
}

/// The base and quote tickers a pair text names. With a delimiter, exactly two
/// non-blank pieces; without, a recognized quote at the end after a non-empty base.
pub open spec fn pair_parts(cs: Seq<char>) -> Option<(Seq<char>, Seq<char>)> {
    match delimiter_of(cs) {
        Some(d) => {
            let p = kept_parts(split_on(cs, d));
            if p.len() == 2 {
                Some((p[0], p[1]))
            } else {
                None
            }
        },
        None => match first_quote(cs, recognized_quotes()) {
            Some(q) => if cs.len() > q.len() {
                Some((cs.subrange(0, cs.len() - q.len()), q))
            } else {
                None
            },
            None => None,
        },
    }
}

/// Whether reading `cs` as a pair fits both tickers into assets.
pub open spec fn pair_fits(cs: Seq<char>) -> bool {
    match pair_parts(cs) {
        Some((b, q)) => fits_asset(b) && fits_asset(q),
        None => true,
    }
}

/// The quotes, in the order they are tried.
fn quote_table() -> (r: Vec<&'static str>)
    ensures
        r@.len() == recognized_quotes().len(),
        forall|i: int| 0 <= i < r@.len() ==> #[trigger] r@[i]@ == recognized_quotes()[i],
{
    let mut r: Vec<&'static str> = Vec::new();
    r.push("EURI"); r.push("EUR"); r.push("USD"); r.push("GBP"); r.push("USDP"); r.push("USDS");
    r.push("PLN"); r.push("RON"); r.push("CZK"); r.push("TRY"); r.push("JPY"); r.push("BRL");
    r.push("RUB"); r.push("AUD"); r.push("NGN"); r.push("MXN"); r.push("COP"); r.push("ARS");
    r.push("BKRW"); r.push("IDRT"); r.push("UAH"); r.push("BIDR"); r.push("BVND"); r.push("ZAR");
    r.push("USDT"); r.push("USDC"); r.push("UST"); r.push("BTC"); r.push("WETH"); r.push("ETH");
    r.push("BNB"); r.push("SOL"); r.push("XRP"); r.push("PAX"); r.push("DAI"); r.push("VAI");
    r.push("DOGE"); r.push("DOT"); r.push("TRX");
    assert(r@.map_values(|s: &str| s@) =~= recognized_quotes());
    proof {
        assert forall|i: int| 0 <= i < r@.len() implies #[trigger] r@[i]@ == recognized_quotes()[i] by {
            assert(r@.map_values(|s: &str| s@)[i] == r@[i]@);
        }
    }
    r
}

/// The delimiters, as the error message lists them.
fn delimiter_strings() -> (r: Vec<String>)
    ensures
        r@.map_values(|d: String| d@) == seq![","@, "-"@, "_"@, "/"@],
{
    let mut r: Vec<String> = Vec::new();
    r.push(",".to_owned());
    r.push("-".to_owned());
    r.push("_".to_owned());
    r.push("/".to_owned());
    assert(r@.map_values(|d: String| d@) =~= seq![","@, "-"@, "_"@, "/"@]);
    r
}

/// The base and quote tickers a pair text names; see [`pair_parts`].
fn parse_parts(s: &str) -> (r: Option<(String, String)>)
    ensures
        match pair_parts(s@) {
            Some((b, q)) => r is Some && r->Some_0.0@ == b && r->Some_0.1@ == q,
            None => r is None,
        },
{
    let cs = chars_of(s);
    let d = if chars_contain(cs.as_slice(), ',') {
        Some(',')
    } else if chars_contain(cs.as_slice(), '-') {
        Some('-')
    } else if chars_contain(cs.as_slice(), '_') {
        Some('_')
    } else if chars_contain(cs.as_slice(), '/') {
        Some('/')
    } else {
        None
    };
    assert(d == delimiter_of(s@));
    match d {
        Some(d) => {
            let pieces = split_chars(cs.as_slice(), d);
            let ghost ps = split_on(s@, d);
            let mut kept: Vec<Vec<char>> = Vec::new();
            let mut i: usize = 0;
            while i < pieces.len()
                invariant
                    pieces@.len() == ps.len(),
                    forall|k: int| 0 <= k < pieces@.len() ==> #[trigger] pieces@[k]@ == ps[k],
                    i <= ps.len(),
                    kept@.len() == kept_parts(ps.subrange(0, i as int)).len(),
                    forall|k: int| 0 <= k < kept@.len() ==> #[trigger] kept@[k]@ == kept_parts(ps.subrange(0, i as int))[k],
                decreases ps.len() - i,
            {
                let t = trim(pieces[i].as_slice());
                assert(ps.subrange(0, i + 1).drop_last() =~= ps.subrange(0, i as int));
                assert(t@ == trimmed(ps[i as int]));
                if t.len() > 0 {
                    kept.push(t);
                }
                i = i + 1;
            }
            assert(ps.subrange(0, ps.len() as int) =~= ps);
            if kept.len() == 2 {
                let b = string_from(kept[0].as_slice());
                let q = string_from(kept[1].as_slice());
                Some((b, q))
            } else {
                None
            }
        },
        None => {
            let qs = quote_table();
            let ghost all = recognized_quotes();
            let mut i: usize = 0;
            assert(all.subrange(0, all.len() as int) =~= all);
            while i < qs.len()
                invariant
                    qs@.len() == all.len(),
                    forall|k: int| 0 <= k < qs@.len() ==> #[trigger] qs@[k]@ == all[k],
                    i <= all.len(),
                    cs@ == s@,
                    all == recognized_quotes(),
                    delimiter_of(s@) is None,
                    first_quote(s@, all) == first_quote(s@, all.subrange(i as int, all.len() as int)),
                decreases all.len() - i,
            {
                let q = qs[i];
                let qc = chars_of(q);
                let ghost rest = all.subrange(i as int, all.len() as int);
                assert(rest[0] == all[i as int]);
                assert(rest.drop_first() =~= all.subrange(i + 1, all.len() as int));
                if chars_end_with(cs.as_slice(), qc.as_slice()) {
                    if cs.len() > qc.len() {
                        let base = chars_prefix(cs.as_slice(), cs.len() - qc.len());
                        return Some((string_from(base.as_slice()), q.to_owned()));
                    }
                    return None;
                }
                i = i + 1;
            }
            None
        },
    }
}

impl Pair {
    /// Reads a pair: two tickers split at the first of `,` `-` `_` `/` that the
    /// text holds (each trimmed, blanks dropped, exactly two must remain), or,
    /// with no delimiter, a recognized quote ending the text after a base.
    pub fn from_str(s: &str) -> (r: Result<Pair, InvalidPairError>)
        requires
            pair_fits(s@),
        ensures
            match pair_parts(s@) {
                Some((b, q)) => r is Ok
                    && r->Ok_0.spec_base().0@ == asset_bytes(uppercase(b))
                    && r->Ok_0.spec_quote().0@ == asset_bytes(uppercase(q)),
                None => r is Err && r->Err_0.provided() == s@
                    && r->Err_0.delimiters() == seq![","@, "-"@, "_"@, "/"@],
            },
    {
        match parse_parts(s) {
            Some((b, q)) => Ok(Pair::new(b.as_str(), q.as_str())),
            None => Err(InvalidPairError::new(s, delimiter_strings())),
        }
    }

    /// Reads a pair as [`Pair::from_str`] does; `None` when a ticker it names
    /// does not fit an asset.
    pub fn try_from_str(s: &str) -> (r: Option<Result<Pair, InvalidPairError>>)
        ensures
            match r {
                Some(res) => pair_fits(s@) && match pair_parts(s@) {
                    Some((b, q)) => res is Ok
                        && res->Ok_0.spec_base().0@ == asset_bytes(uppercase(b))
                        && res->Ok_0.spec_quote().0@ == asset_bytes(uppercase(q)),
                    None => res is Err && res->Err_0.provided() == s@,
                },
                None => !pair_fits(s@),
            },
    {
        match parse_parts(s) {
            Some((b, q)) => {
                if Asset::fits(b.as_str()) && Asset::fits(q.as_str()) {
                    Some(Self::from_str(s))
                } else {
                    None
                }
            },
            None => Some(Self::from_str(s)),
        }
    }
}

} // verus!
