//! Character- and byte-level text helpers shared by the parsers and formatters:
//! decimal rendering and std-compatible decimal parsing.

use vstd::prelude::*;
use vstd::string::StringExecFns;

verus! {

broadcast use vstd::string::group_string_axioms;

/// Appends one character; `String::push` from std.
#[verifier::external_body]
pub fn push_char(s: &mut String, c: char)
    ensures
        final(s)@ == old(s)@.push(c),
{
    s.push(c);
}

/// Appends a string slice (through vstd's specified `append`).
pub fn push_str(s: &mut String, t: &str)
    ensures
        final(s)@ == old(s)@ + t@,
{
    s.append(t);
}

/// The characters of a string slice, in order.
pub fn chars_of(s: &str) -> (v: Vec<char>)
    ensures
        v@ == s@,
{
    let mut v: Vec<char> = Vec::new();
    for c in iter: s.chars()
        invariant
            v@ == iter.seq().subrange(0, iter.index() as int),
    {
        v.push(c);
    }
    v
}

/// A `String` holding exactly the given characters.
pub fn string_from(cs: &[char]) -> (s: String)
    ensures
        s@ == cs@,
{
    let mut s = String::new();
    let mut i: usize = 0;
    while i < cs.len()
        invariant
            i <= cs@.len(),
            s@ == cs@.subrange(0, i as int),
        decreases cs@.len() - i,
    {
        push_char(&mut s, cs[i]);
        i = i + 1;
        assert(s@ =~= cs@.subrange(0, i as int));
    }
    assert(s@ =~= cs@);
    s
}

// ---------------------------------------------------------------------------
// Unicode case mapping and whitespace, as std computes them
// ---------------------------------------------------------------------------

/// The Unicode uppercase mapping of a non-ASCII character (one or more
/// characters), as `char::to_uppercase` of std gives it.
pub uninterp spec fn unicode_uppercase(c: char) -> Seq<char>;

/// The Unicode lowercase mapping of a text that is not all ASCII, as
/// `str::to_lowercase` of std computes it (which looks at context for `Σ`).
pub uninterp spec fn unicode_lowercase(s: Seq<char>) -> Seq<char>;

/// Whether a non-ASCII character has the Unicode `White_Space` property.
pub uninterp spec fn unicode_white_space(c: char) -> bool;

/// The uppercase form of one character: ASCII letters map to their capitals,
/// other ASCII characters stay, and the rest follow Unicode.
pub open spec fn char_uppercase(c: char) -> Seq<char> {
    if 'a' <= c <= 'z' {
        seq![((c as u32) - 32) as char]
    } else if (c as u32) < 128 {
        seq![c]
    } else {
        unicode_uppercase(c)
    }
}

/// The uppercase form of a text: each character's, in order (what
/// `str::to_uppercase` gives).
pub open spec fn uppercase(s: Seq<char>) -> Seq<char>
    decreases s.len(),
{
    if s.len() == 0 {
        Seq::empty()
    } else {
        uppercase(s.drop_last()) + char_uppercase(s.last())
    }
}

/// The lowercase form of an ASCII character.
pub open spec fn ascii_lower(c: char) -> char {
    if 'A' <= c <= 'Z' {
        ((c as u32) + 32) as char
    } else {
        c
    }
}

/// ASCII text with each capital letter lowered.
pub open spec fn ascii_lowercase(s: Seq<char>) -> Seq<char>
    decreases s.len(),
{
    if s.len() == 0 {
        Seq::empty()
    } else {
        ascii_lowercase(s.drop_last()).push(ascii_lower(s.last()))
    }
}

/// The lowercase form of a text (what `str::to_lowercase` gives): ASCII text
/// maps letter by letter; other text follows Unicode.
pub open spec fn lowercase(s: Seq<char>) -> Seq<char> {
    if vstd::utf8::is_ascii_chars(s) {
        ascii_lowercase(s)
    } else {
        unicode_lowercase(s)
    }
}

/// Whether a character is whitespace (what `char::is_whitespace` tests): in
/// ASCII, tab, line feed, vertical tab, form feed, carriage return and space.
pub open spec fn is_whitespace(c: char) -> bool {
    if (c as u32) < 128 {
        c == ' ' || ('\x09' <= c <= '\x0d')
    } else {
        unicode_white_space(c)
    }
}

/// `char::to_uppercase` of std: the uppercase form of one character. ASCII
/// letters map to their capitals and other ASCII stays; beyond ASCII the
/// mapping is named, not stated.
#[verifier::external_body]
fn char_to_uppercase(c: char) -> (r: Vec<char>)
    ensures
        r@ == if 'a' <= c <= 'z' {
            seq![((c as u32) - 32) as char]
        } else if (c as u32) < 128 {
            seq![c]
        } else {
            unicode_uppercase(c)
        },
{
    c.to_uppercase().collect()
}

/// The uppercase form of a text: each character's uppercase form in turn, as
/// `str::to_uppercase` builds it.
pub fn to_uppercase(s: &str) -> (r: String)
    ensures
        r@ == uppercase(s@),
{
    let cs = chars_of(s);
    let mut out = String::new();
    let mut i: usize = 0;
    while i < cs.len()
        invariant
            i <= cs@.len(),
            cs@ == s@,
            out@ == uppercase(cs@.subrange(0, i as int)),
        decreases cs@.len() - i,
    {
        let up = char_to_uppercase(cs[i]);
        let ghost before = out@;
        let mut j: usize = 0;
        while j < up.len()
            invariant
                j <= up@.len(),
                out@ == before + up@.subrange(0, j as int),
            decreases up@.len() - j,
        {
            push_char(&mut out, up[j]);
            j = j + 1;
            assert(out@ =~= before + up@.subrange(0, j as int));
        }
        assert(up@.subrange(0, up@.len() as int) =~= up@);
        assert(cs@.subrange(0, i + 1).drop_last() =~= cs@.subrange(0, i as int));
        i = i + 1;
    }
    assert(cs@.subrange(0, cs@.len() as int) =~= cs@);
    out
}

/// `str::to_lowercase` of std: ASCII text lowered letter by letter; the
/// lowercase form of other text is named, not stated.
#[verifier::external_body]
pub fn to_lowercase(s: &str) -> (r: String)
    ensures
        r@ == if vstd::utf8::is_ascii_chars(s@) {
            ascii_lowercase(s@)
        } else {
            unicode_lowercase(s@)
        },
{
    s.to_lowercase()
}

/// `char::is_whitespace` of std: in ASCII, tab, line feed, vertical tab, form
/// feed, carriage return and space; beyond ASCII the Unicode `White_Space`
/// property is named, not stated.
#[verifier::external_body]
pub fn char_is_whitespace(c: char) -> (r: bool)
    ensures
        r == if (c as u32) < 128 {
            c == ' ' || ('\x09' <= c <= '\x0d')
        } else {
            unicode_white_space(c)
        },
{
    c.is_whitespace()
}

/// The text without leading whitespace.
pub open spec fn trim_start(cs: Seq<char>) -> Seq<char>
    decreases cs.len(),
{
    if cs.len() > 0 && is_whitespace(cs[0]) {
        trim_start(cs.drop_first())
    } else {
        cs
    }
}

/// The text without trailing whitespace.
pub open spec fn trim_end(cs: Seq<char>) -> Seq<char>
    decreases cs.len(),
{
    if cs.len() > 0 && is_whitespace(cs.last()) {
        trim_end(cs.drop_last())
    } else {
        cs
    }
}

/// The text without leading and trailing whitespace (what `str::trim` gives).
pub open spec fn trimmed(cs: Seq<char>) -> Seq<char> {
    trim_end(trim_start(cs))
}

/// Removes leading and trailing whitespace.
pub fn trim(cs: &[char]) -> (r: Vec<char>)
    ensures
        r@ == trimmed(cs@),
{
    let mut start: usize = 0;
    assert(cs@.subrange(0, cs@.len() as int) =~= cs@);
    while start < cs.len() && char_is_whitespace(cs[start])
        invariant
            start <= cs@.len(),
            trim_start(cs@) == trim_start(cs@.subrange(start as int, cs@.len() as int)),
        decreases cs@.len() - start,
    {
        proof {
            let t = cs@.subrange(start as int, cs@.len() as int);
            assert(t.drop_first() =~= cs@.subrange(start + 1, cs@.len() as int));
        }
        start = start + 1;
    }
    proof {
        assert(cs@.subrange(0, cs@.len() as int) =~= cs@);
    }
    let ghost mid = cs@.subrange(start as int, cs@.len() as int);
    assert(trim_start(cs@) == mid);
    let mut end: usize = cs.len();
    while end > start && char_is_whitespace(cs[end - 1])
        invariant
            start <= end <= cs@.len(),
            mid == cs@.subrange(start as int, cs@.len() as int),
            trim_end(mid) == trim_end(cs@.subrange(start as int, end as int)),
        decreases end,
    {
        proof {
            let t = cs@.subrange(start as int, end as int);
            assert(t.drop_last() =~= cs@.subrange(start as int, end - 1));
        }
        end = end - 1;
    }
    let mut r: Vec<char> = Vec::new();
    let mut i = start;
    while i < end
        invariant
            start <= i <= end <= cs@.len(),
            r@ == cs@.subrange(start as int, i as int),
        decreases end - i,
    {
        r.push(cs[i]);
        i = i + 1;
        assert(r@ =~= cs@.subrange(start as int, i as int));
    }
    r
}

/// The pieces of a text between occurrences of `d` (as `str::split` with a
/// `char` pattern gives them, empty pieces included).
pub open spec fn split_on(cs: Seq<char>, d: char) -> Seq<Seq<char>>
    decreases cs.len(),
{
    if cs.len() == 0 {
        seq![Seq::<char>::empty()]
    } else {
        let p = split_on(cs.drop_last(), d);
        if cs.last() == d {
            p.push(Seq::<char>::empty())
        } else {
            p.update(p.len() - 1, p.last().push(cs.last()))
        }
    }
}

pub proof fn lemma_split_on_nonempty(cs: Seq<char>, d: char)
    ensures
        split_on(cs, d).len() >= 1,
    decreases cs.len(),
{
    if cs.len() > 0 {
        lemma_split_on_nonempty(cs.drop_last(), d);
    }
}

/// Splits a text at every occurrence of `d`.
pub fn split_chars(cs: &[char], d: char) -> (r: Vec<Vec<char>>)
    ensures
        r@.len() == split_on(cs@, d).len(),
        forall|i: int| 0 <= i < r@.len() ==> #[trigger] r@[i]@ == split_on(cs@, d)[i],
{
    let mut r: Vec<Vec<char>> = Vec::new();
    let mut cur: Vec<char> = Vec::new();
    let mut i: usize = 0;
    while i < cs.len()
        invariant
            i <= cs@.len(),
            split_on(cs@.subrange(0, i as int), d).len() == r@.len() + 1,
            forall|k: int| 0 <= k < r@.len() ==> #[trigger] r@[k]@ == split_on(cs@.subrange(0, i as int), d)[k],
            cur@ == split_on(cs@.subrange(0, i as int), d).last(),
        decreases cs@.len() - i,
    {
        proof {
            assert(cs@.subrange(0, i + 1).drop_last() =~= cs@.subrange(0, i as int));
            lemma_split_on_nonempty(cs@.subrange(0, i as int), d);
        }
        let c = cs[i];
        if c == d {
            let done = cur;
            r.push(done);
            cur = Vec::new();
        } else {
            cur.push(c);
        }
        i = i + 1;
    }
    assert(cs@.subrange(0, cs@.len() as int) =~= cs@);
    r.push(cur);
    r
}

/// Whether `suffix` ends `cs`.
pub open spec fn ends_with(cs: Seq<char>, suffix: Seq<char>) -> bool {
    suffix.len() <= cs.len() && cs.subrange(cs.len() - suffix.len(), cs.len() as int) == suffix
}

/// Whether `suffix` ends `cs`.
pub fn chars_end_with(cs: &[char], suffix: &[char]) -> (r: bool)
    ensures
        r == ends_with(cs@, suffix@),
{
    if suffix.len() > cs.len() {
        return false;
    }
    let off = cs.len() - suffix.len();
    let mut i: usize = 0;
    while i < suffix.len()
        invariant
            off == cs@.len() - suffix@.len(),
            suffix@.len() <= cs@.len(),
            i <= suffix@.len(),
            forall|k: int| 0 <= k < i ==> cs@[off + k] == suffix@[k],
        decreases suffix@.len() - i,
    {
        assert(off + i < cs.len());
        if cs[off + i] != suffix[i] {
            assert(cs@.subrange(off as int, cs@.len() as int)[i as int] != suffix@[i as int]);
            return false;
        }
        i = i + 1;
    }
    assert(cs@.subrange(off as int, cs@.len() as int) =~= suffix@);
    true
}

/// Whether two character sequences are equal.
pub fn chars_eq(a: &[char], b: &[char]) -> (r: bool)
    ensures
        r == (a@ == b@),
{
    if a.len() != b.len() {
        return false;
    }
    let mut i: usize = 0;
    while i < a.len()
        invariant
            a@.len() == b@.len(),
            i <= a@.len(),
            forall|k: int| 0 <= k < i ==> a@[k] == b@[k],
        decreases a@.len() - i,
    {
        if a[i] != b[i] {
            return false;
        }
        i = i + 1;
    }
    assert(a@ =~= b@);
    true
}

/// Whether two strings hold the same characters.
pub fn str_eq(a: &str, b: &str) -> (r: bool)
    ensures
        r == (a@ == b@),
{
    let ca = chars_of(a);
    let cb = chars_of(b);
    chars_eq(ca.as_slice(), cb.as_slice())
}

/// Whether `c` occurs in `cs`.
pub fn chars_contain(cs: &[char], c: char) -> (r: bool)
    ensures
        r == cs@.contains(c),
{
    let mut i: usize = 0;
    while i < cs.len()
        invariant
            i <= cs@.len(),
            forall|k: int| 0 <= k < i ==> cs@[k] != c,
        decreases cs@.len() - i,
    {
        if cs[i] == c {
            return true;
        }
        i = i + 1;
    }
    false
}

/// The first `n` characters of `cs`.
pub fn chars_prefix(cs: &[char], n: usize) -> (r: Vec<char>)
    requires
        n <= cs@.len(),
    ensures
        r@ == cs@.subrange(0, n as int),
{
    let mut r: Vec<char> = Vec::new();
    let mut i: usize = 0;
    while i < n
        invariant
            i <= n <= cs@.len(),
            r@ == cs@.subrange(0, i as int),
        decreases n - i,
    {
        r.push(cs[i]);
        i = i + 1;
        assert(r@ =~= cs@.subrange(0, i as int));
    }
    r
}

/// Whether the byte string `suffix` ends `b` (what `str::ends_with` tests).
pub fn bytes_end_with(b: &[u8], suffix: &[u8]) -> (r: bool)
    ensures
        r == (suffix@.len() <= b@.len() && b@.subrange(b@.len() - suffix@.len(), b@.len() as int) == suffix@),
{
    if suffix.len() > b.len() {
        return false;
    }
    let off = b.len() - suffix.len();
    let mut i: usize = 0;
    while i < suffix.len()
        invariant
            off == b@.len() - suffix@.len(),
            suffix@.len() <= b@.len(),
            i <= suffix@.len(),
            forall|k: int| 0 <= k < i ==> b@[off + k] == suffix@[k],
        decreases suffix@.len() - i,
    {
        assert(off + i < b.len());
        if b[off + i] != suffix[i] {
            assert(b@.subrange(off as int, b@.len() as int)[i as int] != suffix@[i as int]);
            return false;
        }
        i = i + 1;
    }
    assert(b@.subrange(off as int, b@.len() as int) =~= suffix@);
    true
}

/// UTF-8 of a concatenation is the concatenation of the UTF-8 encodings.
pub proof fn lemma_encode_concat(a: Seq<char>, b: Seq<char>)
    ensures
        vstd::utf8::encode_utf8(a + b) == vstd::utf8::encode_utf8(a) + vstd::utf8::encode_utf8(b),
    decreases a.len(),
{
    if a.len() == 0 {
        assert(a + b =~= b);
        assert(vstd::utf8::encode_utf8(a) + vstd::utf8::encode_utf8(b) =~= vstd::utf8::encode_utf8(b));
    } else {
        assert((a + b).drop_first() =~= a.drop_first() + b);
        assert((a + b)[0] == a[0]);
        lemma_encode_concat(a.drop_first(), b);
        assert(vstd::utf8::encode_utf8(a + b) =~= vstd::utf8::encode_utf8(a) + vstd::utf8::encode_utf8(b));
    }
}

/// Index of the first occurrence of `c` in `cs`.
pub open spec fn first_index(cs: Seq<char>, c: char) -> Option<int>
    decreases cs.len(),
{
    if cs.len() == 0 {
        None
    } else if cs[0] == c {
        Some(0)
    } else {
        match first_index(cs.drop_first(), c) {
            Some(i) => Some(i + 1),
            None => None,
        }
    }
}

pub proof fn lemma_first_index_bounds(cs: Seq<char>, c: char)
    ensures
        match first_index(cs, c) {
            Some(i) => 0 <= i < cs.len() && cs[i] == c && !cs.subrange(0, i).contains(c),
            None => !cs.contains(c),
        },
    decreases cs.len(),
{
    if cs.len() > 0 {
        lemma_first_index_bounds(cs.drop_first(), c);
        match first_index(cs.drop_first(), c) {
            Some(i) => {
                if cs[0] != c {
                    assert forall|k: int| 0 <= k < i + 1 implies #[trigger] cs.subrange(0, i + 1)[k] != c by {
                        if k > 0 {
                            assert(cs.subrange(0, i + 1)[k] == cs.drop_first().subrange(0, i)[k - 1]);
                        }
                    }
                }
            },
            None => {
                if cs[0] != c {
                    assert forall|k: int| 0 <= k < cs.len() implies #[trigger] cs[k] != c by {
                        if k > 0 {
                            assert(cs[k] == cs.drop_first()[k - 1]);
                        }
                    }
                }
            },
        }
    }
}

/// The index of the first `c` in `cs`, if any.
pub fn find_char(cs: &[char], c: char) -> (r: Option<usize>)
    ensures
        match first_index(cs@, c) {
            Some(i) => r == Some(i as usize),
            None => r is None,
        },
{
    let mut i: usize = 0;
    assert(cs@.subrange(0, cs@.len() as int) =~= cs@);
    while i < cs.len()
        invariant
            i <= cs@.len(),
            match first_index(cs@.subrange(i as int, cs@.len() as int), c) {
                Some(k) => first_index(cs@, c) == Some(k + i),
                None => first_index(cs@, c) is None,
            },
        decreases cs@.len() - i,
    {
        let ghost t = cs@.subrange(i as int, cs@.len() as int);
        assert(t.drop_first() =~= cs@.subrange(i + 1, cs@.len() as int));
        if cs[i] == c {
            return Some(i);
        }
        i = i + 1;
    }
    None
}

/// The characters of `cs` from `from` up to `to`.
pub fn chars_slice(cs: &[char], from: usize, to: usize) -> (r: Vec<char>)
    requires
        from <= to <= cs@.len(),
    ensures
        r@ == cs@.subrange(from as int, to as int),
{
    let mut r: Vec<char> = Vec::new();
    let mut i: usize = from;
    while i < to
        invariant
            from <= i <= to <= cs@.len(),
            r@ == cs@.subrange(from as int, i as int),
        decreases to - i,
    {
        r.push(cs[i]);
        i = i + 1;
        assert(r@ =~= cs@.subrange(from as int, i as int));
    }
    r
}

/// The pieces joined, with `sep` between each two.
pub open spec fn join_with(parts: Seq<Seq<char>>, sep: Seq<char>) -> Seq<char>
    decreases parts.len(),
{
    if parts.len() == 0 {
        Seq::empty()
    } else if parts.len() == 1 {
        parts[0]
    } else {
        join_with(parts.drop_last(), sep) + sep + parts.last()
    }
}

/// The strings joined, with `sep` between each two (what `join` gives).
pub fn join_strings(parts: &Vec<String>, sep: &str) -> (r: String)
    ensures
        r@ == join_with(parts@.map_values(|p: String| p@), sep@),
{
    let ghost ps = parts@.map_values(|p: String| p@);
    let mut s = String::new();
    let mut i: usize = 0;
    while i < parts.len()
        invariant
            i <= ps.len(),
            ps == parts@.map_values(|p: String| p@),
            s@ == join_with(ps.subrange(0, i as int), sep@),
        decreases ps.len() - i,
    {
        if i > 0 {
            push_str(&mut s, sep);
        }
        push_str(&mut s, parts[i].as_str());
        proof {
            let sub = ps.subrange(0, i + 1);
            assert(sub.drop_last() =~= ps.subrange(0, i as int));
            if i == 0 {
                assert(join_with(ps.subrange(0, 0), sep@) =~= Seq::<char>::empty());
            }
            assert(s@ =~= join_with(sub, sep@));
        }
        i = i + 1;
    }
    assert(ps.subrange(0, ps.len() as int) =~= ps);
    s
}

/// `std::str::from_utf8`: the bytes read as a string slice, or `None` when
/// they are not valid UTF-8.
#[verifier::external_body]
pub(crate) fn str_from_utf8(b: &[u8]) -> (r: Option<&str>)
    ensures
        match r {
            Some(s) => vstd::utf8::valid_utf8(b@) && vstd::utf8::encode_utf8(s@) == b@,
            None => !vstd::utf8::valid_utf8(b@),
        },
{
    std::str::from_utf8(b).ok()
}

// ---------------------------------------------------------------------------
// Decimal rendering
// ---------------------------------------------------------------------------

/// The character of a decimal digit `d < 10`.
pub open spec fn digit_char(d: nat) -> char {
    ((d + 48) as u32) as char
}

/// Decimal rendering of a natural number, no sign, no leading zeros ("0" for zero).
pub open spec fn dec(n: nat) -> Seq<char>
    decreases n,
{
    if n < 10 {
        seq![digit_char(n)]
    } else {
        dec(n / 10).push(digit_char(n % 10))
    }
}

/// Decimal rendering padded with leading zeros to at least `width` characters.
pub open spec fn dec_padded(n: nat, width: nat) -> Seq<char> {
    let d = dec(n);
    if d.len() >= width {
        d
    } else {
        Seq::new((width - d.len()) as nat, |i: int| '0') + d
    }
}

pub proof fn lemma_dec_shape(n: nat)
    ensures
        dec(n).len() >= 1,
        forall|i: int| 0 <= i < dec(n).len() ==> '0' <= #[trigger] dec(n)[i] <= '9',
        n >= 10 ==> dec(n)[0] != '0',
        n < 10 ==> dec(n).len() == 1,
    decreases n,
{
    if n >= 10 {
        lemma_dec_shape(n / 10);
    }
}

/// Decimal rendering of `n`.
pub fn dec_chars(n: u64) -> (r: Vec<char>)
    ensures
        r@ == dec(n as nat),
    decreases n,
{
    if n < 10 {
        let c = ((n as u32) + 48u32) as u8 as char;
        let mut r: Vec<char> = Vec::new();
        r.push(c);
        assert(r@ =~= dec(n as nat));
        r
    } else {
        let mut r = dec_chars(n / 10);
        let d = n % 10;
        let c = ((d as u32) + 48u32) as u8 as char;
        r.push(c);
        r
    }
}

/// Appends the decimal rendering of `n`.
pub fn push_dec(s: &mut String, n: u64)
    ensures
        final(s)@ == old(s)@ + dec(n as nat),
{
    let d = dec_chars(n);
    let t = string_from(d.as_slice());
    push_str(s, t.as_str());
}

/// Appends the decimal rendering of `n`, padded with zeros to `width` characters.
pub fn push_dec_padded(s: &mut String, n: u64, width: usize)
    ensures
        final(s)@ == old(s)@ + dec_padded(n as nat, width as nat),
{
    let digits = dec_chars(n);
    let ghost start = s@;
    if digits.len() < width {
        let pad = width - digits.len();
        let mut i: usize = 0;
        while i < pad
            invariant
                i <= pad,
                s@ == start + Seq::new(i as nat, |k: int| '0'),
            decreases pad - i,
        {
            push_char(s, '0');
            i = i + 1;
            assert(s@ =~= start + Seq::new(i as nat, |k: int| '0'));
        }
    }
    let ghost mid = s@;
    let mut j: usize = 0;
    while j < digits.len()
        invariant
            j <= digits@.len(),
            s@ == mid + digits@.subrange(0, j as int),
        decreases digits@.len() - j,
    {
        push_char(s, digits[j]);
        j = j + 1;
        assert(s@ =~= mid + digits@.subrange(0, j as int));
    }
    assert(digits@.subrange(0, digits@.len() as int) =~= digits@);
    assert(s@ =~= start + dec_padded(n as nat, width as nat));
}

// ---------------------------------------------------------------------------
// Decimal parsing, as `str::parse` of std reads integers
// ---------------------------------------------------------------------------

pub open spec fn is_digit_byte(b: u8) -> bool {
    48 <= b <= 57
}

pub open spec fn all_digits(s: Seq<u8>) -> bool {
    forall|i: int| 0 <= i < s.len() ==> is_digit_byte(#[trigger] s[i])
}

/// The value of a run of decimal digit bytes.
pub open spec fn digits_value(s: Seq<u8>) -> nat
    decreases s.len(),
{
    if s.len() == 0 {
        0
    } else {
        digits_value(s.drop_last()) * 10 + (s.last() - 48) as nat
    }
}

/// What follows an optional leading `+`.
pub open spec fn unsigned_body(s: Seq<u8>) -> Seq<u8> {
    if s.len() > 0 && s[0] == 43u8 {
        s.drop_first()
    } else {
        s
    }
}

/// An unsigned integer as std parses it: an optional `+`, then one or more
/// decimal digits, and a value of at most `max`.
pub open spec fn parse_unsigned(s: Seq<u8>, max: nat) -> Option<nat> {
    let body = unsigned_body(s);
    if body.len() > 0 && all_digits(body) && digits_value(body) <= max {
        Some(digits_value(body))
    } else {
        None
    }
}

/// A signed integer as std parses it: an optional `+` or `-`, then one or more
/// decimal digits, and a value within `[-neg_max, max]`.
pub open spec fn parse_signed(s: Seq<u8>, neg_max: nat, max: nat) -> Option<int> {
    if s.len() > 0 && s[0] == 45u8 {
        let body = s.drop_first();
        if body.len() > 0 && all_digits(body) && digits_value(body) <= neg_max {
            Some(-(digits_value(body) as int))
        } else {
            None
        }
    } else {
        match parse_unsigned(s, max) {
            Some(v) => Some(v as int),
            None => None,
        }
    }
}

pub proof fn lemma_digits_value_prefix(s: Seq<u8>, i: int)
    requires
        0 <= i <= s.len(),
        all_digits(s),
    ensures
        digits_value(s.subrange(0, i)) <= digits_value(s),
    decreases s.len(),
{
    if i < s.len() {
        lemma_digits_value_prefix(s.drop_last(), i);
        assert(s.drop_last().subrange(0, i) =~= s.subrange(0, i));
    } else {
        assert(s.subrange(0, i) =~= s);
    }
}

pub proof fn lemma_digits_value_step(s: Seq<u8>, i: int)
    requires
        0 <= i < s.len(),
    ensures
        digits_value(s.subrange(0, i + 1)) == digits_value(s.subrange(0, i)) * 10 + (s[i] - 48) as nat,
{
    assert(s.subrange(0, i + 1).drop_last() =~= s.subrange(0, i));
}

/// Reads a run of decimal digits; `None` when a byte is not a digit or the value exceeds `max`.
fn digits_bounded(s: &[u8], start: usize, max: u64) -> (r: Option<u64>)
    requires
        start <= s@.len(),
    ensures
        ({
            let body = s@.subrange(start as int, s@.len() as int);
            match r {
                Some(v) => all_digits(body) && digits_value(body) == v && v <= max,
                None => !(all_digits(body) && digits_value(body) <= max),
            }
        }),
{
    let ghost body = s@.subrange(start as int, s@.len() as int);
    let mut acc: u64 = 0;
    let mut i: usize = start;
    while i < s.len()
        invariant
            start <= i <= s@.len(),
            body == s@.subrange(start as int, s@.len() as int),
            all_digits(s@.subrange(start as int, i as int)),
            acc == digits_value(s@.subrange(start as int, i as int)),
            acc <= max,
        decreases s@.len() - i,
    {
        let b = s[i];
        if b < 48 || b > 57 {
            assert(!is_digit_byte(body[i - start]));
            return None;
        }
        let next: u128 = (acc as u128) * 10 + ((b - 48) as u128);
        proof {
            lemma_digits_value_step(body, i - start);
            assert(body.subrange(0, i - start) =~= s@.subrange(start as int, i as int));
            assert(body.subrange(0, i - start + 1) =~= s@.subrange(start as int, i + 1));
        }
        if next > max as u128 {
            proof {
                if all_digits(body) {
                    lemma_digits_value_prefix(body, i - start + 1);
                }
            }
            return None;
        }
        acc = next as u64;
        i = i + 1;
        assert(all_digits(s@.subrange(start as int, i as int)));
    }
    assert(body =~= s@.subrange(start as int, i as int));
    Some(acc)
}

/// Parses an unsigned integer of at most `max` as std's `str::parse` does.
pub fn parse_unsigned_bytes(s: &[u8], max: u64) -> (r: Option<u64>)
    ensures
        match r {
            Some(v) => parse_unsigned(s@, max as nat) == Some(v as nat),
            None => parse_unsigned(s@, max as nat) is None,
        },
{
    let start: usize = if s.len() > 0 && s[0] == 43u8 { 1 } else { 0 };
    assert(s@.subrange(start as int, s@.len() as int) =~= unsigned_body(s@));
    if start == s.len() {
        return None;
    }
    digits_bounded(s, start, max)
}

/// Parses a signed integer within `[-neg_max, max]` as std's `str::parse` does.
pub fn parse_signed_bytes(s: &[u8], neg_max: u64, max: u64) -> (r: Option<i128>)
    ensures
        match r {
            Some(v) => parse_signed(s@, neg_max as nat, max as nat) == Some(v as int),
            None => parse_signed(s@, neg_max as nat, max as nat) is None,
        },
{
    if s.len() > 0 && s[0] == 45u8 {
        assert(s@.subrange(1, s@.len() as int) =~= s@.drop_first());
        if s.len() == 1 {
            return None;
        }
        match digits_bounded(s, 1, neg_max) {
            Some(v) => Some(-(v as i128)),
            None => None,
        }
    } else {
        match parse_unsigned_bytes(s, max) {
            Some(v) => Some(v as i128),
            None => None,
        }
    }
}

/// The bytes of an ASCII character sequence, one per character.
pub open spec fn ascii_bytes(cs: Seq<char>) -> Seq<u8> {
    cs.map_values(|c: char| c as u8)
}

/// For ASCII text, the UTF-8 encoding is one byte per character.
pub proof fn lemma_ascii_encoding(cs: Seq<char>)
    requires
        vstd::utf8::is_ascii_chars(cs),
    ensures
        vstd::utf8::encode_utf8(cs) == ascii_bytes(cs),
{
    vstd::utf8::is_ascii_chars_encode_utf8(cs);
    assert(vstd::utf8::encode_utf8(cs) =~= ascii_bytes(cs));
}

pub proof fn lemma_digit_char_byte(d: nat)
    requires
        d < 10,
    ensures
        digit_char(d) as u8 == (d + 48) as u8,
        '0' <= digit_char(d) <= '9',
{
    assert(digit_char(d) as u32 == (d + 48) as u32);
    assert((digit_char(d) as u32) as u8 == digit_char(d) as u8);
}

/// Text is empty exactly when its encoding is.
pub proof fn lemma_encode_empty(cs: Seq<char>)
    ensures
        (vstd::utf8::encode_utf8(cs).len() == 0) == (cs.len() == 0),
{
    if cs.len() > 0 {
        assert(vstd::utf8::encode_scalar(cs[0] as u32).len() >= 1);
    }
}

/// The decimal rendering of `n` reads back as `n`.
pub proof fn lemma_dec_value(n: nat)
    ensures
        all_digits(ascii_bytes(dec(n))),
        digits_value(ascii_bytes(dec(n))) == n,
        vstd::utf8::is_ascii_chars(dec(n)),
    decreases n,
{
    lemma_dec_shape(n);
    if n >= 10 {
        lemma_dec_value(n / 10);
        let b = ascii_bytes(dec(n));
        assert(b.drop_last() =~= ascii_bytes(dec(n / 10)));
        lemma_digit_char_byte(n % 10);
        assert(b.last() == digit_char(n % 10) as u8);
        assert(b.last() - 48 == n % 10);
        assert(digits_value(b) == digits_value(b.drop_last()) * 10 + (b.last() - 48) as nat);
        assert((n / 10) * 10 + n % 10 == n);
    } else {
        let b = ascii_bytes(dec(n));
        assert(b.drop_last() =~= Seq::<u8>::empty());
        lemma_digit_char_byte(n);
        assert(b.last() == digit_char(n) as u8);
        assert(digits_value(b) == digits_value(b.drop_last()) * 10 + (b.last() - 48) as nat);
    }
}

/// Leading zero digits do not change the value.
pub proof fn lemma_leading_zeros(k: nat, s: Seq<u8>)
    requires
        all_digits(s),
    ensures
        digits_value(Seq::new(k, |i: int| 48u8) + s) == digits_value(s),
        all_digits(Seq::new(k, |i: int| 48u8) + s),
    decreases s.len(),
{
    let z = Seq::new(k, |i: int| 48u8);
    if s.len() == 0 {
        assert(z + s =~= z);
        lemma_zeros_value(k);
    } else {
        assert((z + s).drop_last() =~= z + s.drop_last());
        assert(all_digits(s.drop_last()));
        lemma_leading_zeros(k, s.drop_last());
    }
}

proof fn lemma_zeros_value(k: nat)
    ensures
        digits_value(Seq::new(k, |i: int| 48u8)) == 0,
        all_digits(Seq::new(k, |i: int| 48u8)),
    decreases k,
{
    if k > 0 {
        assert(Seq::new(k, |i: int| 48u8).drop_last() =~= Seq::new((k - 1) as nat, |i: int| 48u8));
        lemma_zeros_value((k - 1) as nat);
    }
}

/// The padded decimal rendering of `n` is ASCII digits and reads back as `n`.
pub proof fn lemma_dec_padded_value(n: nat, w: nat)
    ensures
        vstd::utf8::is_ascii_chars(dec_padded(n, w)),
        vstd::utf8::encode_utf8(dec_padded(n, w)) == ascii_bytes(dec_padded(n, w)),
        all_digits(ascii_bytes(dec_padded(n, w))),
        digits_value(ascii_bytes(dec_padded(n, w))) == n,
        dec_padded(n, w).len() >= 1,
        forall|i: int| 0 <= i < dec_padded(n, w).len() ==> '0' <= #[trigger] dec_padded(n, w)[i] <= '9',
{
    lemma_dec_value(n);
    lemma_dec_shape(n);
    let d = dec(n);
    if d.len() < w {
        let k = (w - d.len()) as nat;
        let p = dec_padded(n, w);
        assert(ascii_bytes(p) =~= Seq::new(k, |i: int| 48u8) + ascii_bytes(d));
        lemma_leading_zeros(k, ascii_bytes(d));
        assert forall|i: int| 0 <= i < p.len() implies '0' <= #[trigger] p[i] <= '9' by {
            if i >= k {
                assert(p[i] == d[i - k]);
            }
        }
    }
    let p = dec_padded(n, w);
    assert(vstd::utf8::is_ascii_chars(p)) by {
        assert forall|i: int| 0 <= i < p.len() implies '\0' <= #[trigger] p[i] <= '\u{7f}' by {
            assert('0' <= p[i] <= '9');
        }
    }
    lemma_ascii_encoding(p);
}

/// Splitting at `d` a text whose last piece holds no `d` ends with that piece.
pub proof fn lemma_split_on_append(s: Seq<char>, d: char, t: Seq<char>)
    requires
        !t.contains(d),
    ensures
        split_on(s + seq![d] + t, d) == split_on(s, d).push(t),
    decreases t.len(),
{
    if t.len() == 0 {
        assert(s + seq![d] + t =~= s.push(d));
        assert((s + seq![d] + t).drop_last() =~= s);
        assert(t =~= Seq::<char>::empty());
    } else {
        let full = s + seq![d] + t;
        assert(full.drop_last() =~= s + seq![d] + t.drop_last());
        assert(!t.drop_last().contains(d)) by {
            if t.drop_last().contains(d) {
                let i = choose|i: int| 0 <= i < t.drop_last().len() && t.drop_last()[i] == d;
                assert(t[i] == d);
            }
        }
        lemma_split_on_append(s, d, t.drop_last());
        assert(full.last() == t.last());
        assert(t.last() != d);
        let p = split_on(s, d).push(t.drop_last());
        assert(t.drop_last().push(t.last()) =~= t);
        assert(p.last() == t.drop_last());
        assert(p.update(p.len() - 1, p.last().push(t.last())) =~= split_on(s, d).push(t));
    }
}

/// A text without `d` is one piece.
pub proof fn lemma_split_on_none(t: Seq<char>, d: char)
    requires
        !t.contains(d),
    ensures
        split_on(t, d) == seq![t],
    decreases t.len(),
{
    if t.len() > 0 {
        assert(!t.drop_last().contains(d)) by {
            if t.drop_last().contains(d) {
                let i = choose|i: int| 0 <= i < t.drop_last().len() && t.drop_last()[i] == d;
                assert(t[i] == d);
            }
        }
        lemma_split_on_none(t.drop_last(), d);
        assert(t.last() != d);
        assert(t.drop_last().push(t.last()) =~= t);
        assert(seq![t.drop_last()].update(0, t.drop_last().push(t.last())) =~= seq![t]);
    } else {
        assert(t =~= Seq::<char>::empty());
    }
}

} // verus!
