//! The corpus file of minimal failing runs: one `target seed size version`
//! per line, `#` starting a comment, blank lines ignored.

use vstd::prelude::*;

use crate::text::{
    chars_slice, split_chars, split_on, char_is_whitespace, chars_of, dec, dec_chars, first_index, find_char, is_whitespace,
    lemma_dec_padded_value, lemma_dec_shape, lemma_first_index_bounds, parse_unsigned, parse_unsigned_bytes, push_char,
    push_str, str_eq, string_from, trim, trim_end, trim_start, trimmed,
};

verus! {

broadcast use vstd::string::group_string_axioms;

/// One recorded run: the target's name, the run `(seed, size)`, and the
/// fingerprint of the generator it was recorded under.
#[derive(Clone, Debug, PartialEq, Eq)]
pub struct CorpusEntry {
    pub target: String,
    pub seed: u64,
    pub size: usize,
    pub version: u32,
}

/// Why a corpus line does not parse.
#[derive(Clone, Copy, Debug, PartialEq, Eq, Structural)]
pub enum CorpusError {
    MissingSeed,
    BadSeed,
    MissingSize,
    BadSize,
    MissingVersion,
    BadVersion,
}

/// The maximal runs of non-whitespace characters, in order (what
/// `str::split_whitespace` yields).
pub open spec fn words(cs: Seq<char>) -> Seq<Seq<char>>
    decreases cs.len(),
{
    if cs.len() == 0 {
        Seq::empty()
    } else {
        let w = words(cs.drop_last());
        let c = cs.last();
        if is_whitespace(c) {
            w
        } else if cs.len() > 1 && !is_whitespace(cs[cs.len() - 2]) && w.len() > 0 {
            w.update(w.len() - 1, w.last().push(c))
        } else {
            w.push(seq![c])
        }
    }
}

/// The part of a line before any `#`, trimmed.
pub open spec fn line_data(line: Seq<char>) -> Seq<char> {
    match first_index(line, '#') {
        Some(i) => trimmed(line.subrange(0, i)),
        None => trimmed(line),
    }
}

/// The decimal value of a word, as std parses an unsigned integer of at most `max`.
pub open spec fn word_value(w: Seq<char>, max: nat) -> Option<nat> {
    parse_unsigned(vstd::utf8::encode_utf8(w), max)
}

/// What a corpus line holds: nothing (blank or comment), an entry, or the
/// first field that is missing or does not parse. Words past the fourth are ignored.
#[verifier::opaque]
pub open spec fn line_spec(line: Seq<char>) -> Result<Option<(Seq<char>, u64, usize, u32)>, CorpusError> {
    let data = line_data(line);
    let w = words(data);
    if data.len() == 0 {
        Ok(None)
    } else if w.len() < 2 {
        Err(CorpusError::MissingSeed)
    } else if word_value(w[1], u64::MAX as nat) is None {
        Err(CorpusError::BadSeed)
    } else if w.len() < 3 {
        Err(CorpusError::MissingSize)
    } else if word_value(w[2], usize::MAX as nat) is None {
        Err(CorpusError::BadSize)
    } else if w.len() < 4 {
        Err(CorpusError::MissingVersion)
    } else if word_value(w[3], u32::MAX as nat) is None {
        Err(CorpusError::BadVersion)
    } else {
        Ok(Some((
            w[0],
            word_value(w[1], u64::MAX as nat)->Some_0 as u64,
            word_value(w[2], usize::MAX as nat)->Some_0 as usize,
            word_value(w[3], u32::MAX as nat)->Some_0 as u32,
        )))
    }
}

/// Whether an entry holds what a parsed line names.
pub open spec fn entry_is(e: CorpusEntry, v: (Seq<char>, u64, usize, u32)) -> bool {
    e.target@ == v.0 && e.seed == v.1 && e.size == v.2 && e.version == v.3
}

/// The words of a text.
fn split_words(cs: &[char]) -> (r: Vec<Vec<char>>)
    ensures
        r@.len() == words(cs@).len(),
        forall|k: int| 0 <= k < r@.len() ==> #[trigger] r@[k]@ == words(cs@)[k],
{
    let mut r: Vec<Vec<char>> = Vec::new();
    let mut i: usize = 0;
    while i < cs.len()
        invariant
            i <= cs@.len(),
            r@.len() == words(cs@.subrange(0, i as int)).len(),
            forall|k: int| 0 <= k < r@.len() ==> #[trigger] r@[k]@ == words(cs@.subrange(0, i as int))[k],
        decreases cs@.len() - i,
    {
        let ghost pre = cs@.subrange(0, i as int);
        let ghost next = cs@.subrange(0, i + 1);
        assert(next.drop_last() =~= pre);
        let c = cs[i];
        if char_is_whitespace(c) {
        } else if i > 0 && !char_is_whitespace(cs[i - 1]) && r.len() > 0 {
            assert(next[next.len() - 2] == cs@[i - 1]);
            let ghost before = r@;
            let mut w = r.pop().unwrap();
            w.push(c);
            r.push(w);
            proof {
                let ws = words(next);
                assert forall|k: int| 0 <= k < r@.len() implies #[trigger] r@[k]@ == ws[k] by {
                    if k < r@.len() - 1 {
                        assert(r@[k] == before[k]);
                    }
                }
            }
        } else {
            let mut w: Vec<char> = Vec::new();
            w.push(c);
            assert(w@ =~= seq![c]);
            r.push(w);
        }
        i = i + 1;
    }
    assert(cs@.subrange(0, cs@.len() as int) =~= cs@);
    r
}

/// Reads one corpus line: `Ok(None)` for a blank or comment line, the entry
/// for a well-formed one, else the first field that is missing or bad.
pub fn parse_line(line: &str) -> (r: Result<Option<CorpusEntry>, CorpusError>)
    ensures
        match line_spec(line@) {
            Ok(None) => r == Ok::<Option<CorpusEntry>, CorpusError>(None),
            Ok(Some(v)) => r is Ok && r->Ok_0 is Some && entry_is(r->Ok_0->Some_0, v),
            Err(e) => r == Err::<Option<CorpusEntry>, CorpusError>(e),
        },
{
    reveal(line_spec);
    let cs = chars_of(line);
    proof {
        lemma_first_index_bounds(line@, '#');
    }
    assert(cs@ == line@);
    let n = cs.len();
    let data = match find_char(cs.as_slice(), '#') {
        Some(i) => {
            let head = chars_slice(cs.as_slice(), 0, i);
            assert(first_index(line@, '#') == Some(i as int));
            assert(head@ == line@.subrange(0, i as int));
            trim(head.as_slice())
        },
        None => {
            assert(first_index(line@, '#') is None);
            trim(cs.as_slice())
        },
    };
    assert(data@ == line_data(line@));
    if data.len() == 0 {
        return Ok(None);
    }
    let w = split_words(data.as_slice());
    if w.len() < 2 {
        return Err(CorpusError::MissingSeed);
    }
    let seed_str = string_from(w[1].as_slice());
    let seed = match parse_unsigned_bytes(seed_str.as_str().as_bytes(), u64::MAX) {
        Some(v) => v,
        None => {
            return Err(CorpusError::BadSeed);
        },
    };
    if w.len() < 3 {
        return Err(CorpusError::MissingSize);
    }
    let size_str = string_from(w[2].as_slice());
    let size = match parse_unsigned_bytes(size_str.as_str().as_bytes(), usize::MAX as u64) {
        Some(v) => v as usize,
        None => {
            return Err(CorpusError::BadSize);
        },
    };
    if w.len() < 4 {
        return Err(CorpusError::MissingVersion);
    }
    let version_str = string_from(w[3].as_slice());
    let version = match parse_unsigned_bytes(version_str.as_str().as_bytes(), u32::MAX as u64) {
        Some(v) => v as u32,
        None => {
            return Err(CorpusError::BadVersion);
        },
    };
    let target = string_from(w[0].as_slice());
    Ok(Some(CorpusEntry { target, seed, size, version }))
}

/// The lines of a text as `str::lines` yields them: split at `\n`, a `\r`
/// before the `\n` dropped, no line after a final `\n`.
pub open spec fn text_lines(cs: Seq<char>) -> Seq<Seq<char>> {
    let pieces = split_on(cs, '\n');
    let ended = pieces.drop_last().map_values(|l: Seq<char>| strip_cr(l));
    if pieces.last().len() == 0 {
        ended
    } else {
        ended.push(pieces.last())
    }
}

/// The line without one trailing `\r`.
pub open spec fn strip_cr(l: Seq<char>) -> Seq<char> {
    if l.len() > 0 && l.last() == '\r' {
        l.drop_last()
    } else {
        l
    }
}

/// The entries of a sequence of lines, or the error of the first bad line.
pub open spec fn corpus_spec(lines: Seq<Seq<char>>) -> Result<Seq<(Seq<char>, u64, usize, u32)>, CorpusError>
    decreases lines.len(),
{
    if lines.len() == 0 {
        Ok(Seq::empty())
    } else {
        match corpus_spec(lines.drop_last()) {
            Err(e) => Err(e),
            Ok(es) => match line_spec(lines.last()) {
                Err(e) => Err(e),
                Ok(None) => Ok(es),
                Ok(Some(v)) => Ok(es.push(v)),
            },
        }
    }
}

/// Reads a whole corpus: its entries in order, or the error of the first bad
/// line (a corrupt corpus must not silently shrink).
pub fn parse_corpus(text: &str) -> (r: Result<Vec<CorpusEntry>, CorpusError>)
    ensures
        match corpus_spec(text_lines(text@)) {
            Ok(es) => r is Ok && r->Ok_0@.len() == es.len()
                && forall|k: int| 0 <= k < es.len() ==> #[trigger] entry_is(r->Ok_0@[k], es[k]),
            Err(e) => r == Err::<Vec<CorpusEntry>, CorpusError>(e),
        },
{
    let cs = chars_of(text);
    let pieces = split_chars(cs.as_slice(), '\n');
    let ghost ps = split_on(text@, '\n');
    proof {
        crate::text::lemma_split_on_nonempty(text@, '\n');
    }
    let ghost lines = text_lines(text@);
    let n = pieces.len();
    let last_empty = pieces[n - 1].len() == 0;
    let count: usize = if last_empty { n - 1 } else { n };
    assert(lines.len() == count);
    let mut out: Vec<CorpusEntry> = Vec::new();
    let mut i: usize = 0;
    while i < count
        invariant
            pieces@.len() == ps.len(),
            n == ps.len(),
            n >= 1,
            forall|k: int| 0 <= k < pieces@.len() ==> #[trigger] pieces@[k]@ == ps[k],
            lines == text_lines(text@),
            ps == split_on(text@, '\n'),
            count == lines.len(),
            count <= n,
            i <= count,
            corpus_spec(lines.subrange(0, i as int)) is Ok,
            out@.len() == corpus_spec(lines.subrange(0, i as int))->Ok_0.len(),
            forall|k: int| 0 <= k < out@.len() ==> #[trigger] entry_is(out@[k], corpus_spec(lines.subrange(0, i as int))->Ok_0[k]),
        decreases count - i,
    {
        let p = &pieces[i];
        let line_chars: Vec<char> = if i + 1 < n && p.len() > 0 && p[p.len() - 1] == '\r' {
            chars_slice(p.as_slice(), 0, p.len() - 1)
        } else {
            chars_slice(p.as_slice(), 0, p.len())
        };
        proof {
            assert(p@.subrange(0, p@.len() as int) =~= p@);
            if i + 1 < n {
                assert(lines[i as int] == strip_cr(ps[i as int]));
            } else {
                assert(lines[i as int] == ps[i as int]);
            }
            assert(line_chars@ == lines[i as int]);
            assert(lines.subrange(0, i + 1).drop_last() =~= lines.subrange(0, i as int));
        }
        let line = string_from(line_chars.as_slice());
        match parse_line(line.as_str()) {
            Ok(Some(e)) => {
                out.push(e);
            },
            Ok(None) => {},
            Err(e) => {
                proof {
                    lemma_corpus_err_sticks(lines, i as int + 1);
                }
                return Err(e);
            },
        }
        i = i + 1;
    }
    assert(lines.subrange(0, count as int) =~= lines);
    Ok(out)
}

/// An error in a prefix of the lines is the error of the whole.
proof fn lemma_corpus_err_sticks(lines: Seq<Seq<char>>, i: int)
    requires
        0 <= i <= lines.len(),
        corpus_spec(lines.subrange(0, i)) is Err,
    ensures
        corpus_spec(lines) == corpus_spec(lines.subrange(0, i)),
    decreases lines.len() - i,
{
    if i < lines.len() {
        assert(lines.subrange(0, i + 1).drop_last() =~= lines.subrange(0, i));
        lemma_corpus_err_sticks(lines, i + 1);
    } else {
        assert(lines.subrange(0, i) =~= lines);
    }
}

/// The text with every `a` replaced by `b`.
pub open spec fn replace_char(cs: Seq<char>, a: char, b: char) -> Seq<char> {
    cs.map_values(|c: char| if c == a { b } else { c })
}

/// The corpus line recording a run: `target seed size version  # reason`, the
/// reason on one line.
pub fn corpus_line(target: &str, seed: u64, size: usize, version: u32, reason: &str) -> (r: String)
    ensures
        r@ == target@ + seq![' '] + dec(seed as nat) + seq![' '] + dec(size as nat) + seq![' ']
            + dec(version as nat) + seq![' ', ' ', '#', ' '] + replace_char(reason@, '\n', ' ') + seq!['\n'],
{
    let mut s = target.to_owned();
    push_char(&mut s, ' ');
    let d = dec_chars(seed);
    push_str(&mut s, string_from(d.as_slice()).as_str());
    push_char(&mut s, ' ');
    let d = dec_chars(size as u64);
    push_str(&mut s, string_from(d.as_slice()).as_str());
    push_char(&mut s, ' ');
    let d = dec_chars(version as u64);
    push_str(&mut s, string_from(d.as_slice()).as_str());
    push_char(&mut s, ' ');
    push_char(&mut s, ' ');
    push_char(&mut s, '#');
    push_char(&mut s, ' ');
    let rc = chars_of(reason);
    let ghost head = s@;
    let mut i: usize = 0;
    while i < rc.len()
        invariant
            i <= rc@.len(),
            rc@ == reason@,
            s@ == head + replace_char(rc@.subrange(0, i as int), '\n', ' '),
        decreases rc@.len() - i,
    {
        let c = rc[i];
        if c == '\n' {
            push_char(&mut s, ' ');
        } else {
            push_char(&mut s, c);
        }
        i = i + 1;
        assert(s@ =~= head + replace_char(rc@.subrange(0, i as int), '\n', ' '));
    }
    assert(rc@.subrange(0, rc@.len() as int) =~= rc@);
    push_char(&mut s, '\n');
    s
}

/// Whether the corpus already records this run at this generator version.
pub fn is_recorded(entries: &[CorpusEntry], target: &str, seed: u64, size: usize, version: u32) -> (r: bool)
    ensures
        r == exists|k: int| 0 <= k < entries@.len() && #[trigger] entry_is(entries@[k], (target@, seed, size, version)),
{
    let mut i: usize = 0;
    while i < entries.len()
        invariant
            i <= entries@.len(),
            forall|k: int| 0 <= k < i ==> !#[trigger] entry_is(entries@[k], (target@, seed, size, version)),
        decreases entries@.len() - i,
    {
        let e = &entries[i];
        if str_eq(e.target.as_str(), target) && e.seed == seed && e.size == size && e.version == version {
            assert(entry_is(entries@[i as int], (target@, seed, size, version)));
            return true;
        }
        i = i + 1;
    }
    false
}

/// The first of `names` equal to `target`.
pub open spec fn first_named(names: Seq<Seq<char>>, target: Seq<char>) -> Option<int>
    decreases names.len(),
{
    if names.len() == 0 {
        None
    } else if names.last() == target && first_named(names.drop_last(), target) is None {
        Some(names.len() - 1)
    } else {
        first_named(names.drop_last(), target)
    }
}

/// For a recorded entry, the index of the target it replays: the first target
/// of that name, when it is still at the recorded version; `None` means the
/// entry is history (its target is gone or its generator changed).
pub fn live_target(entry: &CorpusEntry, names: &[&str], versions: &[u32]) -> (r: Option<usize>)
    requires
        names@.len() == versions@.len(),
    ensures
        match first_named(names@.map_values(|n: &str| n@), entry.target@) {
            Some(t) => if versions@[t] == entry.version {
                r == Some(t as usize)
            } else {
                r is None
            },
            None => r is None,
        },
{
    let ghost ns = names@.map_values(|n: &str| n@);
    let mut i: usize = 0;
    while i < names.len()
        invariant
            i <= names@.len(),
            names@.len() == versions@.len(),
            ns == names@.map_values(|n: &str| n@),
            first_named(ns.subrange(0, i as int), entry.target@) is None,
        decreases names@.len() - i,
    {
        assert(ns.subrange(0, i + 1).drop_last() =~= ns.subrange(0, i as int));
        if str_eq(names[i], entry.target.as_str()) {
            proof {
                lemma_first_named_extend(ns, i as int + 1, entry.target@);
            }
            if versions[i] == entry.version {
                return Some(i);
            }
            return None;
        }
        i = i + 1;
    }
    assert(ns.subrange(0, ns.len() as int) =~= ns);
    None
}

proof fn lemma_first_named_extend(ns: Seq<Seq<char>>, i: int, target: Seq<char>)
    requires
        0 < i <= ns.len(),
        first_named(ns.subrange(0, i), target) is Some,
    ensures
        first_named(ns, target) == first_named(ns.subrange(0, i), target),
    decreases ns.len() - i,
{
    if i < ns.len() {
        assert(ns.subrange(0, i + 1).drop_last() =~= ns.subrange(0, i));
        lemma_first_named_extend(ns, i + 1, target);
    } else {
        assert(ns.subrange(0, i) =~= ns);
    }
}

/// A word: non-empty, with no whitespace.
pub open spec fn is_word(w: Seq<char>) -> bool {
    w.len() > 0 && forall|i: int| 0 <= i < w.len() ==> !is_whitespace(#[trigger] w[i])
}

/// A lone word splits into itself.
proof fn lemma_words_word(w: Seq<char>)
    requires
        is_word(w),
    ensures
        words(w) == seq![w],
    decreases w.len(),
{
    if w.len() == 1 {
        assert(w.drop_last() =~= Seq::<char>::empty());
        assert(words(w.drop_last()) == Seq::<Seq<char>>::empty());
        assert(!is_whitespace(w.last()));
        assert(w =~= seq![w[0]]);
        assert(Seq::<Seq<char>>::empty().push(seq![w.last()]) =~= seq![w]);
    } else {
        let p = w.drop_last();
        assert(is_word(p)) by {
            assert forall|i: int| 0 <= i < p.len() implies !is_whitespace(#[trigger] p[i]) by {
                assert(p[i] == w[i]);
            }
        }
        lemma_words_word(p);
        assert(!is_whitespace(w[w.len() - 1]));
        assert(!is_whitespace(w[w.len() - 2]));
        assert(p.push(w.last()) =~= w);
        assert(seq![p].update(0, p.push(w.last())) =~= seq![w]);
    }
}

/// A word after a space is one more word.
proof fn lemma_words_append(x: Seq<char>, w: Seq<char>)
    requires
        is_word(w),
    ensures
        words(x + seq![' '] + w) == words(x).push(w),
    decreases w.len(),
{
    let cs = x + seq![' '] + w;
    assert(is_whitespace(' '));
    if w.len() == 1 {
        assert(cs.drop_last() =~= x + seq![' ']);
        assert((x + seq![' ']).drop_last() =~= x);
        assert(words(x + seq![' ']) == words(x));
        assert(cs[cs.len() - 2] == ' ');
        assert(!is_whitespace(cs.last()));
        assert(w =~= seq![w[0]]);
    } else {
        let p = w.drop_last();
        assert(is_word(p)) by {
            assert forall|i: int| 0 <= i < p.len() implies !is_whitespace(#[trigger] p[i]) by {
                assert(p[i] == w[i]);
            }
        }
        lemma_words_append(x, p);
        assert(cs.drop_last() =~= x + seq![' '] + p);
        assert(cs[cs.len() - 2] == w[w.len() - 2]);
        assert(!is_whitespace(w[w.len() - 2]));
        assert(!is_whitespace(cs.last()));
        assert(p.push(w.last()) =~= w);
        assert(words(x).push(p).update(words(x).len() as int, p.push(w.last())) =~= words(x).push(w));
    }
}

/// The first `c` of `a + b`, when `a` holds none and `b` starts with one.
proof fn lemma_first_index_concat(a: Seq<char>, b: Seq<char>, c: char)
    requires
        !a.contains(c),
        b.len() > 0,
        b[0] == c,
    ensures
        first_index(a + b, c) == Some(a.len() as int),
    decreases a.len(),
{
    if a.len() == 0 {
        assert(a + b =~= b);
    } else {
        assert((a + b).drop_first() =~= a.drop_first() + b);
        assert(!a.drop_first().contains(c)) by {
            if a.drop_first().contains(c) {
                let i = choose|i: int| 0 <= i < a.drop_first().len() && a.drop_first()[i] == c;
                assert(a[i + 1] == c);
            }
        }
        assert(a[0] != c) by {
            if a[0] == c {
                assert(a.contains(c));
            }
        }
        lemma_first_index_concat(a.drop_first(), b, c);
    }
}

/// A number's decimal text is a word, holds no `#`, and reads back as the
/// number at any bound it fits.
proof fn lemma_dec_word(n: nat, max: nat)
    requires
        n <= max,
    ensures
        is_word(dec(n)),
        !dec(n).contains('#'),
        word_value(dec(n), max) == Some(n),
{
    lemma_dec_padded_value(n, 0);
    lemma_dec_shape(n);
    let d = dec(n);
    assert(crate::text::dec_padded(n, 0) == d);
    assert forall|i: int| 0 <= i < d.len() implies !is_whitespace(#[trigger] d[i]) by {
        assert('0' <= d[i] <= '9');
    }
    if d.contains('#') {
        let i = choose|i: int| 0 <= i < d.len() && d[i] == '#';
        assert('0' <= d[i] <= '9');
    }
    let b = crate::text::ascii_bytes(d);
    assert(b[0] == d[0] as u8);
    assert(crate::text::unsigned_body(b) == b);
}

/// Law: a line recorded to the corpus reads back as the entry it records,
/// whatever the reason written after the `#`, for a target name that is one
/// word without `#`.
pub proof fn law_recorded_line_reads_back(t: Seq<char>, seed: u64, size: usize, version: u32, reason: Seq<char>)
    requires
        is_word(t),
        !t.contains('#'),
    ensures
        line_spec(
            t + seq![' '] + dec(seed as nat) + seq![' '] + dec(size as nat) + seq![' '] + dec(version as nat) + seq![
                ' ',
                ' ',
                '#',
                ' ',
            ] + replace_char(reason, '\n', ' '),
        ) == Ok::<Option<(Seq<char>, u64, usize, u32)>, CorpusError>(Some((t, seed, size, version))),
{
    reveal(line_spec);
    let ds = dec(seed as nat);
    let dz = dec(size as nat);
    let dv = dec(version as nat);
    lemma_dec_word(seed as nat, u64::MAX as nat);
    lemma_dec_word(size as nat, usize::MAX as nat);
    lemma_dec_word(version as nat, u32::MAX as nat);
    let b1 = t + seq![' '] + ds;
    let b2 = b1 + seq![' '] + dz;
    let body = b2 + seq![' '] + dv;
    let tail = seq!['#', ' '] + replace_char(reason, '\n', ' ');
    let line = body + seq![' ', ' '] + tail;
    assert(line =~= t + seq![' '] + ds + seq![' '] + dz + seq![' '] + dv + seq![' ', ' ', '#', ' '] + replace_char(reason, '\n', ' '));
    // the `#` after the record is the first one
    let pre = body + seq![' ', ' '];
    assert(!pre.contains('#')) by {
        if pre.contains('#') {
            let i = choose|i: int| 0 <= i < pre.len() && pre[i] == '#';
            if i < t.len() {
                assert(t[i] == '#');
            } else if i == t.len() {
            } else if i < b1.len() {
                assert(ds[i - t.len() - 1] == '#');
            } else if i == b1.len() {
            } else if i < b2.len() {
                assert(dz[i - b1.len() - 1] == '#');
            } else if i == b2.len() {
            } else if i < body.len() {
                assert(dv[i - b2.len() - 1] == '#');
            }
        }
    }
    assert(line =~= pre + tail);
    lemma_first_index_concat(pre, tail, '#');
    assert(line.subrange(0, pre.len() as int) =~= pre);
    // trimming leaves the record
    assert(is_whitespace(' '));
    assert(!is_whitespace(t[0]));
    assert(pre[0] == t[0]);
    assert(trim_start(pre) == pre);
    assert(pre.drop_last() =~= body + seq![' ']);
    assert((body + seq![' ']).drop_last() =~= body);
    assert(body.last() == dv.last());
    assert(!is_whitespace(dv[dv.len() - 1]));
    assert(trim_end(body) == body);
    assert(trim_end(body + seq![' ']) == body);
    assert(trim_end(pre) == body);
    assert(line_data(line) == body);
    // the record splits into its four words
    lemma_words_word(t);
    lemma_words_append(t, ds);
    lemma_words_append(b1, dz);
    lemma_words_append(b2, dv);
    assert(words(body) =~= seq![t, ds, dz, dv]);
}

/// Whether a `FUZZ_TARGET` filter picks a target by name: every target when
/// there is no filter, else the one of that name.
pub open spec fn picks(name: Seq<char>, only: Option<Seq<char>>) -> bool {
    match only {
        None => true,
        Some(o) => name == o,
    }
}

/// The indices, in order, of the targets the filter picks.
pub open spec fn picked_indices(names: Seq<Seq<char>>, only: Option<Seq<char>>) -> Seq<usize>
    decreases names.len(),
{
    if names.len() == 0 {
        Seq::empty()
    } else if picks(names.last(), only) {
        picked_indices(names.drop_last(), only).push((names.len() - 1) as usize)
    } else {
        picked_indices(names.drop_last(), only)
    }
}

/// The targets a run takes, by index and in order: all of them, or only the
/// one named by the filter (`FUZZ_TARGET`). An empty result means the filter
/// names no target.
pub fn picked_targets(names: &[&str], only: Option<&str>) -> (r: Vec<usize>)
    ensures
        r@ == picked_indices(
            names@.map_values(|n: &str| n@),
            match only {
                Some(o) => Some(o@),
                None => None,
            },
        ),
{
    let ghost ns = names@.map_values(|n: &str| n@);
    let ghost o: Option<Seq<char>> = match only {
        Some(o) => Some(o@),
        None => None,
    };
    let mut r: Vec<usize> = Vec::new();
    let mut i: usize = 0;
    while i < names.len()
        invariant
            i <= names@.len(),
            ns == names@.map_values(|n: &str| n@),
            o == (match only {
                Some(o) => Some(o@),
                None => None::<Seq<char>>,
            }),
            r@ == picked_indices(ns.subrange(0, i as int), o),
        decreases names@.len() - i,
    {
        assert(ns.subrange(0, i + 1).drop_last() =~= ns.subrange(0, i as int));
        let take = match only {
            None => true,
            Some(n) => str_eq(names[i], n),
        };
        if take {
            r.push(i);
        }
        i = i + 1;
    }
    assert(ns.subrange(0, names@.len() as int) =~= ns);
    r
}

/// What a seed scan does after running one seed of `0..runs`.
#[derive(Clone, Copy, Debug, PartialEq, Eq, Structural)]
pub enum ScanStep {
    /// Run the next seed.
    Next(u64),
    /// This seed failed: replay it, record it and stop.
    Record(u64),
    /// Every seed passed.
    Clean,
}

/// The scan's next step after seed `seed` ran and did or did not fail.
pub fn scan_step(seed: u64, runs: u64, failed: bool) -> (r: ScanStep)
    requires
        seed < runs,
    ensures
        failed ==> r == ScanStep::Record(seed),
        !failed && seed + 1 < runs ==> r == ScanStep::Next((seed + 1) as u64),
        !failed && seed + 1 >= runs ==> r == ScanStep::Clean,
{
    if failed {
        ScanStep::Record(seed)
    } else if seed + 1 < runs {
        ScanStep::Next(seed + 1)
    } else {
        ScanStep::Clean
    }
}

} // verus!
