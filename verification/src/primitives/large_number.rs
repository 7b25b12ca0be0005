//! The compact rendering of large numbers (`69K`, `2.42K`, `-0.0196`): the
//! layout of a rounded mantissa's digits, a decimal point and an SI suffix
//! into a small ASCII buffer.

use vstd::prelude::*;
use vstd::utf8::{encode_utf8, is_ascii_chars};

use crate::text::{ascii_bytes, dec, dec_padded, lemma_dec_shape, push_dec_padded, str_from_utf8};

verus! {

broadcast use vstd::string::group_string_axioms;

/// The SI suffix of a count of thousands-groupings: none, `K`, `M`, `B`, `T`, `Q`.
pub open spec fn suffix_spec(thousands: u32) -> Option<u8> {
    if thousands == 0 {
        None
    } else if thousands == 1 {
        Some('K' as u8)
    } else if thousands == 2 {
        Some('M' as u8)
    } else if thousands == 3 {
        Some('B' as u8)
    } else if thousands == 4 {
        Some('T' as u8)
    } else {
        Some('Q' as u8)
    }
}

/// The SI suffix for `thousands` groupings of three digits. More than five
/// groupings is refused with a panic, so it is left out.
pub fn suffix_byte(thousands: u32) -> (r: Option<u8>)
    requires
        thousands <= 5,
    ensures
        r == suffix_spec(thousands),
{
    match thousands {
        0 => None,
        1 => Some('K' as u8),
        2 => Some('M' as u8),
        3 => Some('B' as u8),
        4 => Some('T' as u8),
        _ => Some('Q' as u8),
    }
}

/// The compact text of digits `d` (already zero-padded past `dp`): an
/// optional `-`, the digits with a point before the last `dp`, then the SI
/// suffix unless skipped.
pub open spec fn assemble(neg: bool, d: Seq<u8>, dp: u32, thousands: u32, skip_si: bool) -> Seq<u8> {
    (if neg { seq!['-' as u8] } else { Seq::empty() }) + d.subrange(0, d.len() - dp) + (if dp > 0 {
        seq!['.' as u8] + d.subrange(d.len() - dp, d.len() as int)
    } else {
        Seq::empty()
    }) + (if !skip_si && suffix_spec(thousands) is Some {
        seq![suffix_spec(thousands)->Some_0]
    } else {
        Seq::empty()
    })
}

/// The compact text of a rounded number: the digits of `scaled`, at least
/// `dp + 1` of them, laid out by [`assemble`].
pub open spec fn layout_spec(neg: bool, scaled: u64, dp: u32, thousands: u32, skip_si: bool) -> Seq<u8> {
    assemble(neg, ascii_bytes(dec_padded(scaled as nat, (dp + 1) as nat)), dp, thousands, skip_si)
}

proof fn lemma_assemble_ascii(neg: bool, d: Seq<u8>, dp: u32, thousands: u32, skip_si: bool)
    requires
        dp <= d.len(),
        forall|k: int| 0 <= k < d.len() ==> #[trigger] d[k] < 128,
    ensures
        forall|k: int| 0 <= k < assemble(neg, d, dp, thousands, skip_si).len()
            ==> #[trigger] assemble(neg, d, dp, thousands, skip_si)[k] < 128,
{
    let a = assemble(neg, d, dp, thousands, skip_si);
    let sign: Seq<u8> = if neg { seq!['-' as u8] } else { Seq::empty() };
    let ip = d.subrange(0, d.len() - dp);
    let fp: Seq<u8> = if dp > 0 { seq!['.' as u8] + d.subrange(d.len() - dp, d.len() as int) } else { Seq::empty() };
    assert forall|k: int| 0 <= k < a.len() implies #[trigger] a[k] < 128 by {
        if k < sign.len() {
        } else if k < sign.len() + ip.len() {
            assert(a[k] == d[k - sign.len()]);
        } else if k < sign.len() + ip.len() + fp.len() {
            if k > sign.len() + ip.len() {
                assert(a[k] == d[d.len() - dp + (k - sign.len() - ip.len() - 1)]);
            }
        }
    }
}

/// A rendered compact number, held in a small buffer.
#[derive(Clone, Copy, Debug)]
pub struct Compact {
    buf: [u8; 24],
    len: u8,
}

/// `10^k`.
pub open spec fn ten_pow(k: nat) -> nat
    decreases k,
{
    if k == 0 {
        1
    } else {
        10 * ten_pow((k - 1) as nat)
    }
}

/// A number below `10^k` has at most `k` decimal digits.
proof fn lemma_dec_len(n: nat, k: nat)
    requires
        n < ten_pow(k),
        k >= 1,
    ensures
        dec(n).len() <= k,
    decreases k,
{
    if n >= 10 {
        assert(n / 10 < ten_pow((k - 1) as nat)) by (nonlinear_arith)
            requires
                n < 10 * ten_pow((k - 1) as nat),
        ;
        if k == 1 {
            assert(ten_pow(0) == 1);
        } else {
            lemma_dec_len(n / 10, (k - 1) as nat);
        }
    }
}

/// Padded decimal digits are ASCII digits.
proof fn lemma_padded_ascii(n: nat, w: nat)
    ensures
        is_ascii_chars(dec_padded(n, w)),
        dec_padded(n, w).len() == if dec(n).len() >= w { dec(n).len() } else { w },
{
    lemma_dec_shape(n);
    let d = dec(n);
    if d.len() < w {
        let p = dec_padded(n, w);
        assert forall|i: int| 0 <= i < p.len() implies '\0' <= #[trigger] p[i] <= '\u{7f}' by {
            if i >= w - d.len() {
                assert(p[i] == d[i - (w - d.len())]);
            }
        }
    } else {
        assert forall|i: int| 0 <= i < d.len() implies '\0' <= #[trigger] d[i] <= '\u{7f}' by {
            assert('0' <= d[i] <= '9');
        }
    }
}

/// The digits of `scaled`, zero-padded to `dp + 1`, as ASCII bytes.
fn padded_digits(scaled: u64, dp: u32) -> (r: Vec<u8>)
    requires
        dp <= 15,
    ensures
        r@ == ascii_bytes(dec_padded(scaled as nat, (dp + 1) as nat)),
        dp + 1 <= r@.len() <= 20,
        forall|k: int| 0 <= k < r@.len() ==> #[trigger] r@[k] < 128,
{
    let mut digits = String::new();
    push_dec_padded(&mut digits, scaled, (dp + 1) as usize);
    let ghost cs = dec_padded(scaled as nat, (dp + 1) as nat);
    proof {
        lemma_padded_ascii(scaled as nat, (dp + 1) as nat);
        assert(ten_pow(20) == 100000000000000000000) by {
            reveal_with_fuel(ten_pow, 21);
        }
        lemma_dec_len(scaled as nat, 20);
        crate::text::lemma_ascii_encoding(cs);
    }
    let b = digits.as_str().as_bytes();
    let mut r: Vec<u8> = Vec::new();
    let mut i: usize = 0;
    while i < b.len()
        invariant
            b@ == ascii_bytes(cs),
            is_ascii_chars(cs),
            i <= b@.len(),
            r@ == b@.subrange(0, i as int),
        decreases b@.len() - i,
    {
        r.push(b[i]);
        i = i + 1;
        assert(r@ =~= b@.subrange(0, i as int));
    }
    assert(r@ =~= b@);
    proof {
        assert forall|k: int| 0 <= k < r@.len() implies #[trigger] r@[k] < 128 by {
            assert(r@[k] == cs[k] as u8);
        }
    }
    r
}

/// The bytes of [`assemble`], with the suffix already chosen.
fn assemble_bytes(neg: bool, d: &Vec<u8>, dp: u32, suffix: Option<u8>) -> (out: Vec<u8>)
    requires
        dp + 1 <= d@.len() <= 20,
    ensures
        out@ == (if neg { seq!['-' as u8] } else { Seq::empty() }) + d@.subrange(0, d@.len() - dp) + (if dp > 0 {
            seq!['.' as u8] + d@.subrange(d@.len() - dp, d@.len() as int)
        } else {
            Seq::<u8>::empty()
        }) + (match suffix {
            Some(c) => seq![c],
            None => Seq::empty(),
        }),
        out@.len() <= 23,
{
    let nd = d.len();
    let split = nd - dp as usize;
    let ghost sign: Seq<u8> = if neg { seq!['-' as u8] } else { Seq::empty() };
    let mut out: Vec<u8> = Vec::new();
    if neg {
        out.push('-' as u8);
    }
    assert(out@ =~= sign);
    let mut i: usize = 0;
    while i < split
        invariant
            split <= nd == d@.len(),
            i <= split,
            out@ == sign + d@.subrange(0, i as int),
        decreases split - i,
    {
        out.push(d[i]);
        i = i + 1;
        assert(out@ =~= sign + d@.subrange(0, i as int));
    }
    let ghost int_out = out@;
    if dp > 0 {
        out.push('.' as u8);
        assert(out@ =~= int_out + seq!['.' as u8] + d@.subrange(split as int, i as int));
        while i < nd
            invariant
                split <= i <= nd == d@.len(),
                out@ == int_out + seq!['.' as u8] + d@.subrange(split as int, i as int),
            decreases nd - i,
        {
            out.push(d[i]);
            i = i + 1;
            assert(out@ =~= int_out + seq!['.' as u8] + d@.subrange(split as int, i as int));
        }
    }
    match suffix {
        Some(c) => {
            out.push(c);
        },
        None => {},
    }
    out
}

impl Compact {
    #[verifier::type_invariant]
    spec fn ascii_within(self) -> bool {
        &&& self.len <= 24
        &&& forall|i: int| 0 <= i < self.len ==> #[trigger] self.buf@[i] < 128
    }

    /// The bytes of the rendering.
    pub closed spec fn spec_bytes(self) -> Seq<u8> {
        self.buf@.subrange(0, self.len as int)
    }

    /// Lays out a rounded number (see [`layout_spec`]); `dp` is at most 15
    /// decimals and `thousands` at most 5 groupings, as the rounding produces.
    pub fn from_parts(neg: bool, scaled: u64, dp: u32, thousands: u32, skip_si: bool) -> (r: Compact)
        requires
            dp <= 15,
            thousands <= 5,
        ensures
            r.spec_bytes() == layout_spec(neg, scaled, dp, thousands, skip_si),
    {
        let d = padded_digits(scaled, dp);
        let suffix = if skip_si {
            None
        } else {
            suffix_byte(thousands)
        };
        let out = assemble_bytes(neg, &d, dp, suffix);
        assert(out@ == assemble(neg, d@, dp, thousands, skip_si));
        proof {
            lemma_assemble_ascii(neg, d@, dp, thousands, skip_si);
        }
        let mut buf = [0u8; 24];
        let mut k: usize = 0;
        while k < out.len()
            invariant
                out@.len() <= 23,
                k <= out@.len(),
                buf@.len() == 24,
                forall|j: int| 0 <= j < k ==> buf@[j] == out@[j],
            decreases out@.len() - k,
        {
            buf[k] = out[k];
            k = k + 1;
        }
        assert(buf@.subrange(0, out@.len() as int) =~= out@);
        Compact { buf, len: out.len() as u8 }
    }

    /// The rendering as text.
    pub fn as_str(&self) -> (r: &str)
        ensures
            encode_utf8(r@) == self.spec_bytes(),
    {
        proof {
            use_type_invariant(self);
        }
        let n = self.len as usize;
        let all = self.buf.as_slice();
        let (head, _) = all.split_at(n);
        let ghost bytes = head@;
        let ghost cs = bytes.map_values(|b: u8| b as char);
        proof {
            assert(head@ == self.spec_bytes());
            assert(is_ascii_chars(cs));
            crate::text::lemma_ascii_encoding(cs);
            assert(ascii_bytes(cs) =~= bytes);
            vstd::utf8::encode_utf8_valid_utf8(cs);
        }
        match str_from_utf8(head) {
            Some(s) => s,
            None => {
                assert(false);
                ""
            },
        }
    }
}

/// The SI letters for one to five groupings of a thousand, in order: thousand,
/// million, billion, trillion, quadrillion.
pub open spec fn si_letters() -> Seq<u8> {
    seq!['K' as u8, 'M' as u8, 'B' as u8, 'T' as u8, 'Q' as u8]
}

/// Law: `t` groupings of a thousand are named by the `t`-th SI letter (`K`
/// thousands, `M` millions, `B` billions, `T` trillions, `Q` quadrillions),
/// none by no letter; and the compact text of a number with its suffix ends
/// in that letter.
pub proof fn law_si_suffix(neg: bool, scaled: u64, dp: u32, t: u32)
    requires
        t <= 5,
    ensures
        t == 0 ==> suffix_spec(t) is None,
        t >= 1 ==> suffix_spec(t) == Some(si_letters()[t - 1]),
        t >= 1 && dp <= 15 ==> layout_spec(neg, scaled, dp, t, false).last() == si_letters()[t - 1],
{
}

} // verus!
