//! Deterministic fuzzing support: a finite RNG whose runs are named by
//! `(seed, size)`, the fingerprint of generator sources, and the corpus file
//! format that records minimal failing runs.

pub mod corpus;
pub mod frng;

pub use frng::Frng;

use vstd::prelude::*;

use crate::text::{lemma_encode_concat, lemma_encode_empty};

verus! {

/// One FNV-1a round: mix a byte into the hash.
pub open spec fn fnv_step(h: u32, b: u8) -> u32 {
    (h ^ (b as u32)).wrapping_mul(0x0100_0193)
}

/// FNV-1a of a byte stream, from the hash `h`.
pub open spec fn fnv_bytes(h: u32, bytes: Seq<u8>) -> u32
    decreases bytes.len(),
{
    if bytes.len() == 0 {
        h
    } else {
        fnv_step(fnv_bytes(h, bytes.drop_last()), bytes.last())
    }
}

/// The UTF-8 bytes of the sources, one after another.
pub open spec fn concat_bytes(sources: Seq<Seq<char>>) -> Seq<u8>
    decreases sources.len(),
{
    if sources.len() == 0 {
        Seq::empty()
    } else {
        concat_bytes(sources.drop_last()) + vstd::utf8::encode_utf8(sources.last())
    }
}

/// The FNV-1a offset basis.
pub open spec fn fnv_basis() -> u32 {
    0x811c_9dc5
}

/// FNV-1a (32-bit) over the bytes of all `sources` in turn: the fingerprint of
/// the sources that decide what a `(seed, size)` means.
pub fn fnv(sources: &[&str]) -> (h: u32)
    ensures
        h == fnv_bytes(fnv_basis(), concat_bytes(sources@.map_values(|s: &str| s@))),
{
    let ghost srcs = sources@.map_values(|s: &str| s@);
    let mut h: u32 = 0x811c_9dc5;
    let mut i: usize = 0;
    while i < sources.len()
        invariant
            i <= sources@.len(),
            srcs == sources@.map_values(|s: &str| s@),
            h == fnv_bytes(fnv_basis(), concat_bytes(srcs.subrange(0, i as int))),
        decreases sources@.len() - i,
    {
        let bytes = sources[i].as_bytes();
        let ghost before = concat_bytes(srcs.subrange(0, i as int));
        let mut j: usize = 0;
        while j < bytes.len()
            invariant
                j <= bytes@.len(),
                h == fnv_bytes(fnv_basis(), before + bytes@.subrange(0, j as int)),
            decreases bytes@.len() - j,
        {
            let ghost prev = before + bytes@.subrange(0, j as int);
            let ghost next = before + bytes@.subrange(0, j + 1);
            assert(next.drop_last() =~= prev);
            h = (h ^ bytes[j] as u32).wrapping_mul(0x0100_0193);
            j = j + 1;
        }
        proof {
            assert(srcs.subrange(0, i + 1).drop_last() =~= srcs.subrange(0, i as int));
            assert(bytes@.subrange(0, bytes@.len() as int) =~= bytes@);
            assert(srcs[i as int] == sources@[i as int]@);
        }
        i = i + 1;
    }
    assert(srcs.subrange(0, srcs.len() as int) =~= srcs);
    h
}

/// FNV-1a of two streams run together is FNV-1a of the second, started from
/// the hash of the first.
pub proof fn lemma_fnv_concat(h: u32, a: Seq<u8>, b: Seq<u8>)
    ensures
        fnv_bytes(h, a + b) == fnv_bytes(fnv_bytes(h, a), b),
    decreases b.len(),
{
    if b.len() == 0 {
        assert(a + b =~= a);
    } else {
        assert((a + b).drop_last() =~= a + b.drop_last());
        lemma_fnv_concat(h, a, b.drop_last());
    }
}

/// Law: the fingerprint sees only the bytes of the sources run together, not
/// where one source ends and the next begins (`["ab", "c"]` and `["a", "bc"]`
/// fingerprint alike); appending a source continues the hash of the others.
pub proof fn law_fnv_is_stream_hash(sources: Seq<Seq<char>>, more: Seq<char>)
    ensures
        fnv_bytes(fnv_basis(), concat_bytes(sources.push(more)))
            == fnv_bytes(fnv_bytes(fnv_basis(), concat_bytes(sources)), vstd::utf8::encode_utf8(more)),
{
    assert(sources.push(more).drop_last() =~= sources);
    lemma_fnv_concat(fnv_basis(), concat_bytes(sources), vstd::utf8::encode_utf8(more));
}

/// The characters of the sources, one after another.
pub open spec fn concat_chars(sources: Seq<Seq<char>>) -> Seq<char>
    decreases sources.len(),
{
    if sources.len() == 0 {
        Seq::empty()
    } else {
        concat_chars(sources.drop_last()) + sources.last()
    }
}

/// The bytes of the sources run together are the bytes of their text run
/// together.
proof fn lemma_concat_bytes_text(sources: Seq<Seq<char>>)
    ensures
        concat_bytes(sources) == vstd::utf8::encode_utf8(concat_chars(sources)),
    decreases sources.len(),
{
    if sources.len() == 0 {
        assert(vstd::utf8::encode_utf8(Seq::<char>::empty()) =~= Seq::<u8>::empty()) by {
            lemma_encode_empty(Seq::<char>::empty());
        }
    } else {
        lemma_concat_bytes_text(sources.drop_last());
        lemma_encode_concat(concat_chars(sources.drop_last()), sources.last());
    }
}

/// Law: the fingerprint depends only on the text of the sources run together:
/// two lists of sources whose concatenations are the same text fingerprint
/// alike.
pub proof fn law_fnv_sees_only_text(s1: Seq<Seq<char>>, s2: Seq<Seq<char>>)
    requires
        concat_chars(s1) == concat_chars(s2),
    ensures
        fnv_bytes(fnv_basis(), concat_bytes(s1)) == fnv_bytes(fnv_basis(), concat_bytes(s2)),
{
    lemma_concat_bytes_text(s1);
    lemma_concat_bytes_text(s2);
}

/// Law: `fnv(&[a, b])` is `fnv` of the one source `a` followed by `b`, and an
/// empty source between them changes nothing.
pub proof fn law_fnv_two_sources(a: Seq<char>, b: Seq<char>)
    ensures
        fnv_bytes(fnv_basis(), concat_bytes(seq![a, b])) == fnv_bytes(fnv_basis(), concat_bytes(seq![a + b])),
        fnv_bytes(fnv_basis(), concat_bytes(seq![a, Seq::<char>::empty(), b]))
            == fnv_bytes(fnv_basis(), concat_bytes(seq![a, b])),
{
    let e = Seq::<char>::empty();
    assert(seq![a, b].drop_last() =~= seq![a]);
    assert(seq![a].drop_last() =~= Seq::<Seq<char>>::empty());
    assert(seq![a + b].drop_last() =~= Seq::<Seq<char>>::empty());
    assert(seq![a, e, b].drop_last() =~= seq![a, e]);
    assert(seq![a, e].drop_last() =~= seq![a]);
    assert(concat_chars(Seq::<Seq<char>>::empty()) == e);
    assert(concat_chars(seq![a]) == e + a);
    assert(e + a =~= a);
    assert(concat_chars(seq![a, b]) == a + b);
    assert(concat_chars(seq![a + b]) == e + (a + b));
    assert(e + (a + b) =~= a + b);
    assert(concat_chars(seq![a, e]) == a + e);
    assert(a + e =~= a);
    assert(concat_chars(seq![a, e, b]) == a + b);
    law_fnv_sees_only_text(seq![a, b], seq![a + b]);
    law_fnv_sees_only_text(seq![a, e, b], seq![a, b]);
}

} // verus!
