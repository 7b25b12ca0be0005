//! A finite RNG over a fixed entropy buffer derived from a seed. A run is
//! `(seed, size)`: the buffer is `size` bytes streamed from `seed` by
//! SplitMix64, so the buffer of a smaller size is a prefix of that of a larger
//! one. Drawing past the end gives 0, so a run stops cleanly.

use vstd::prelude::*;

verus! {

/// The SplitMix64 increment.
pub open spec fn golden() -> u64 {
    0x9e37_79b9_7f4a_7c15
}

/// The SplitMix64 state after `k` steps from `seed`.
pub open spec fn splitmix_state(seed: u64, k: nat) -> u64
    decreases k,
{
    if k == 0 {
        seed
    } else {
        splitmix_state(seed, (k - 1) as nat).wrapping_add(golden())
    }
}

/// The SplitMix64 output of a state.
pub open spec fn splitmix_mix(state: u64) -> u64 {
    let z1 = (state ^ (state >> 30u64)).wrapping_mul(0xbf58_476d_1ce4_e5b9);
    let z2 = (z1 ^ (z1 >> 27u64)).wrapping_mul(0x94d0_49bb_1331_11eb);
    z2 ^ (z2 >> 31u64)
}

/// Byte `j` (little-endian) of a word.
pub open spec fn le_byte(z: u64, j: nat) -> u8 {
    (z >> ((8 * j) as u64)) as u8
}

/// Byte `i` of the entropy stream of `seed`: the outputs of successive
/// SplitMix64 steps, each written little-endian.
pub open spec fn stream_byte(seed: u64, i: nat) -> u8 {
    le_byte(splitmix_mix(splitmix_state(seed, i / 8 + 1)), i % 8)
}

/// The first `size` bytes of the entropy stream of `seed`.
pub open spec fn entropy(seed: u64, size: nat) -> Seq<u8> {
    Seq::new(size, |i: int| stream_byte(seed, i as nat))
}

/// A finite RNG: an entropy buffer and how much of it has been drawn.
pub struct Frng {
    buf: Vec<u8>,
    pos: usize,
}

impl Frng {
    #[verifier::type_invariant]
    spec fn drawn_within(self) -> bool {
        self.pos <= self.buf@.len()
    }

    /// The entropy buffer.
    pub closed spec fn spec_buf(self) -> Seq<u8> {
        self.buf@
    }

    /// How many bytes have been drawn.
    pub closed spec fn spec_pos(self) -> nat {
        self.pos as nat
    }

    /// The RNG of run `(seed, size)`, nothing drawn yet.
    pub fn new(seed: u64, size: usize) -> (r: Frng)
        requires
            size + 8 <= usize::MAX,
        ensures
            r.spec_buf() == entropy(seed, size as nat),
            r.spec_pos() == 0,
    {
        let mut state = seed;
        let mut buf: Vec<u8> = Vec::new();
        let ghost mut k: nat = 0;
        while buf.len() < size
            invariant
                size + 8 <= usize::MAX,
                buf@.len() <= size,
                buf@.len() < size ==> buf@.len() == 8 * k,
                state == splitmix_state(seed, k),
                buf@ == entropy(seed, buf@.len()),
            decreases size - buf@.len(),
        {
            state = state.wrapping_add(0x9e37_79b9_7f4a_7c15);
            proof {
                k = k + 1;
            }
            let mut z = state;
            z = (z ^ (z >> 30)).wrapping_mul(0xbf58_476d_1ce4_e5b9);
            z = (z ^ (z >> 27)).wrapping_mul(0x94d0_49bb_1331_11eb);
            z = z ^ (z >> 31);
            assert(z == splitmix_mix(splitmix_state(seed, k)));
            let mut j: u64 = 0;
            while j < 8 && buf.len() < size
                invariant
                    j <= 8,
                    buf@.len() <= size,
                    buf@.len() == 8 * (k - 1) + j,
                    z == splitmix_mix(splitmix_state(seed, k)),
                    k >= 1,
                    buf@ == entropy(seed, buf@.len()),
                decreases 8 - j,
            {
                let b = (z >> (8 * j)) as u8;
                let ghost i: nat = buf@.len();
                assert(i / 8 == k - 1 && i % 8 == j) by (nonlinear_arith)
                    requires
                        i == 8 * (k - 1) + j,
                        j < 8,
                        k >= 1,
                ;
                assert(b == stream_byte(seed, i));
                buf.push(b);
                j = j + 1;
                assert(buf@ =~= entropy(seed, buf@.len()));
            }
        }
        Frng { buf, pos: 0 }
    }

    /// How many bytes are left to draw.
    pub fn remaining(&self) -> (r: usize)
        ensures
            r == self.spec_buf().len() - self.spec_pos(),
    {
        proof {
            use_type_invariant(self);
        }
        self.buf.len() - self.pos
    }

    /// The next byte, or 0 once the buffer is exhausted.
    pub fn byte(&mut self) -> (r: u8)
        ensures
            final(self).spec_buf() == old(self).spec_buf(),
            (r, final(self).spec_pos()) == draw_step(old(self).spec_buf(), old(self).spec_pos()),
            old(self).spec_pos() < old(self).spec_buf().len() ==> {
                &&& r == old(self).spec_buf()[old(self).spec_pos() as int]
                &&& final(self).spec_pos() == old(self).spec_pos() + 1
            },
            old(self).spec_pos() >= old(self).spec_buf().len() ==> {
                &&& r == 0
                &&& final(self).spec_pos() == old(self).spec_pos()
            },
    {
        proof {
            use_type_invariant(&*self);
        }
        if self.pos < self.buf.len() {
            let b = self.buf[self.pos];
            self.pos = self.pos + 1;
            b
        } else {
            0
        }
    }

    /// A pick in `0..n` from one byte (`byte % n`); 0 without drawing when `n <= 1`.
    pub fn below(&mut self, n: u32) -> (r: u32)
        ensures
            final(self).spec_buf() == old(self).spec_buf(),
            n <= 1 ==> r == 0 && final(self).spec_pos() == old(self).spec_pos(),
            n > 1 ==> {
                &&& r < n
                &&& old(self).spec_pos() < old(self).spec_buf().len() ==> {
                    &&& r == (old(self).spec_buf()[old(self).spec_pos() as int] as u32) % n
                    &&& final(self).spec_pos() == old(self).spec_pos() + 1
                }
                &&& old(self).spec_pos() >= old(self).spec_buf().len() ==> {
                    &&& r == 0
                    &&& final(self).spec_pos() == old(self).spec_pos()
                }
            },
    {
        if n <= 1 {
            return 0;
        }
        let b = self.byte() as u32;
        assert(b % n < n && (b == 0 ==> b % n == 0)) by (nonlinear_arith)
            requires
                n > 1,
        ;
        b % n
    }

    /// An index into `weights`, each chosen in proportion to its weight: one
    /// pick `p` in `0..sum` (see [`Frng::below`]) selects the entry whose
    /// running total first exceeds `p`.
    pub fn weighted(&mut self, weights: &[u32]) -> (r: usize)
        requires
            0 < weight_total(weights@) <= u32::MAX,
        ensures
            final(self).spec_buf() == old(self).spec_buf(),
            r < weights@.len(),
            weights@[r as int] > 0,
            ({
                let total = weight_total(weights@) as u32;
                let pick: nat = if total <= 1 {
                    0
                } else if old(self).spec_pos() < old(self).spec_buf().len() {
                    ((old(self).spec_buf()[old(self).spec_pos() as int] as u32) % total) as nat
                } else {
                    0
                };
                weight_total(weights@.subrange(0, r as int)) <= pick < weight_total(weights@.subrange(0, r + 1))
            }),
    {
        let mut total: u32 = 0;
        let mut i: usize = 0;
        while i < weights.len()
            invariant
                i <= weights@.len(),
                weight_total(weights@) <= u32::MAX,
                total == weight_total(weights@.subrange(0, i as int)),
            decreases weights@.len() - i,
        {
            proof {
                assert(weights@.subrange(0, i + 1).drop_last() =~= weights@.subrange(0, i as int));
                lemma_weight_total_prefix(weights@, i + 1);
            }
            total = total + weights[i];
            i = i + 1;
        }
        assert(weights@.subrange(0, weights@.len() as int) =~= weights@);
        let ghost start = self.spec_pos();
        let ghost buf = self.spec_buf();
        let mut pick = self.below(total);
        let ghost p = pick;
        assert(p as nat == (if total <= 1 {
            0
        } else if start < buf.len() {
            ((buf[start as int] as u32) % total) as nat
        } else {
            0
        }));
        let mut i: usize = 0;
        assert(weights@.subrange(0, 0) =~= Seq::<u32>::empty());
        while i < weights.len()
            invariant
                self.spec_buf() == buf,
                buf == old(self).spec_buf(),
                start == old(self).spec_pos(),
                p as nat == (if total <= 1 {
                    0
                } else if start < buf.len() {
                    ((buf[start as int] as u32) % total) as nat
                } else {
                    0
                }),
                i <= weights@.len(),
                weight_total(weights@) == total as nat,
                p < total,
                pick as nat + weight_total(weights@.subrange(0, i as int)) == p as nat,
            decreases weights@.len() - i,
        {
            assert(weights@.subrange(0, i + 1).drop_last() =~= weights@.subrange(0, i as int));
            if pick < weights[i] {
                return i;
            }
            pick = pick - weights[i];
            i = i + 1;
        }
        assert(false);
        0
    }
}

/// The sum of the weights.
pub open spec fn weight_total(w: Seq<u32>) -> nat
    decreases w.len(),
{
    if w.len() == 0 {
        0
    } else {
        weight_total(w.drop_last()) + w.last() as nat
    }
}

proof fn lemma_weight_total_prefix(w: Seq<u32>, i: int)
    requires
        0 <= i <= w.len(),
    ensures
        weight_total(w.subrange(0, i)) <= weight_total(w),
    decreases w.len(),
{
    if i < w.len() {
        assert(w.drop_last().subrange(0, i) =~= w.subrange(0, i));
        lemma_weight_total_prefix(w.drop_last(), i);
    } else {
        assert(w.subrange(0, i) =~= w);
    }
}

/// One draw from a buffer at position `pos`: the byte there and the next
/// position, or 0 and the same position once the buffer is exhausted.
pub open spec fn draw_step(buf: Seq<u8>, pos: nat) -> (u8, nat) {
    if pos < buf.len() {
        (buf[pos as int], pos + 1)
    } else {
        (0u8, pos)
    }
}

/// The bytes that `k` draws from position `pos` yield, in order.
pub open spec fn drawn(buf: Seq<u8>, pos: nat, k: nat) -> Seq<u8>
    decreases k,
{
    if k == 0 {
        Seq::empty()
    } else {
        seq![draw_step(buf, pos).0] + drawn(buf, draw_step(buf, pos).1, (k - 1) as nat)
    }
}

/// The position after `k` draws from position `pos`.
pub open spec fn pos_after(buf: Seq<u8>, pos: nat, k: nat) -> nat
    decreases k,
{
    if k == 0 {
        pos
    } else {
        pos_after(buf, draw_step(buf, pos).1, (k - 1) as nat)
    }
}

/// `n - k`, or 0 where `k` exceeds `n`.
pub open spec fn saturating_sub(n: nat, k: nat) -> nat {
    if k <= n {
        (n - k) as nat
    } else {
        0
    }
}

/// Draws within the buffer yield its bytes in order; past its end they yield
/// zeros and the position stays at the end.
proof fn lemma_draws(buf: Seq<u8>, pos: nat, k: nat)
    requires
        pos <= buf.len(),
    ensures
        pos_after(buf, pos, k) == if pos + k <= buf.len() { pos + k } else { buf.len() },
        pos + k <= buf.len() ==> drawn(buf, pos, k) == buf.subrange(pos as int, (pos + k) as int),
        pos + k > buf.len() ==> drawn(buf, pos, k) == buf.subrange(pos as int, buf.len() as int)
            + Seq::new((pos + k - buf.len()) as nat, |i: int| 0u8),
    decreases k,
{
    if k > 0 {
        let (b, p) = draw_step(buf, pos);
        lemma_draws(buf, p, (k - 1) as nat);
        if pos + k <= buf.len() {
            assert(drawn(buf, pos, k) =~= buf.subrange(pos as int, (pos + k) as int));
        } else if pos < buf.len() {
            assert(drawn(buf, pos, k) =~= buf.subrange(pos as int, buf.len() as int)
                + Seq::new((pos + k - buf.len()) as nat, |i: int| 0u8));
        } else {
            assert(drawn(buf, pos, k) =~= buf.subrange(pos as int, buf.len() as int)
                + Seq::new((pos + k - buf.len()) as nat, |i: int| 0u8));
        }
    } else {
        assert(drawn(buf, pos, k) =~= buf.subrange(pos as int, (pos + k) as int));
    }
}

/// Law: after `k` draws from a fresh RNG of run `(seed, size)` (each draw as
/// [`Frng::byte`] makes it), `size - k` bytes remain, or 0 once `k` reaches
/// `size`: the count never underflows and stays 0 once exhausted. A fresh RNG
/// has all `size` bytes remaining.
pub proof fn law_remaining_after_draws(seed: u64, size: nat, k: nat)
    ensures
        entropy(seed, size).len() - pos_after(entropy(seed, size), 0, 0) == size,
        entropy(seed, size).len() - pos_after(entropy(seed, size), 0, k) == saturating_sub(size, k),
{
    lemma_draws(entropy(seed, size), 0, k);
}

/// Law: for one seed, a smaller run is a strict prefix of a larger one: the
/// `small` bytes that the smaller run yields before it is exhausted are the
/// first `small` bytes the larger run yields, and any first `k` draws agree.
pub proof fn law_smaller_run_is_prefix(seed: u64, small: nat, large: nat, k: nat)
    requires
        small <= large,
        k <= small,
    ensures
        drawn(entropy(seed, small), 0, small) == drawn(entropy(seed, large), 0, small),
        drawn(entropy(seed, small), 0, k) == drawn(entropy(seed, large), 0, k),
{
    lemma_draws(entropy(seed, small), 0, small);
    lemma_draws(entropy(seed, large), 0, small);
    lemma_draws(entropy(seed, small), 0, k);
    lemma_draws(entropy(seed, large), 0, k);
    assert(entropy(seed, small).subrange(0, small as int) =~= entropy(seed, large).subrange(0, small as int));
    assert(entropy(seed, small).subrange(0, k as int) =~= entropy(seed, large).subrange(0, k as int));
}

/// Law: the entropy of a run is a prefix of the entropy of any longer run of
/// the same seed, so a smaller size replays the same early draws, just fewer.
pub proof fn law_entropy_prefix(seed: u64, small: nat, large: nat)
    requires
        small <= large,
    ensures
        entropy(seed, small) == entropy(seed, large).subrange(0, small as int),
{
    assert(entropy(seed, small) =~= entropy(seed, large).subrange(0, small as int));
}

} // verus!
