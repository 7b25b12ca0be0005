//! A single-line terminal progress bar: its settings and the text of one
//! frame of it.

use vstd::prelude::*;

use crate::other::time::{clock_spec, Timelike};
use crate::text::{push_char, push_dec, push_str, dec};

verus! {

broadcast use vstd::string::group_string_axioms;

/// A progress bar over `total` steps.
#[derive(Clone, Debug)]
pub struct ProgressBar {
    /// The number of steps.
    pub total: usize,
    /// The bar's width in characters (40 unless set).
    pub width: usize,
    /// The character of the done part ('█' unless set).
    pub fill: char,
    /// The character of the part to go ('░' unless set).
    pub empty: char,
    /// Text shown before the bar (none unless set).
    pub prefix: String,
}

/// `c` repeated `n` times.
pub open spec fn repeated(c: char, n: nat) -> Seq<char>
    decreases n,
{
    if n == 0 {
        Seq::empty()
    } else {
        repeated(c, (n - 1) as nat).push(c)
    }
}

/// The text of a frame: the prefix and a space (when there is a prefix),
/// the bar between `▕` and `▏` with `filled` cells done, the percentage, and
/// the estimated time left in clock form when there is one.
pub open spec fn bar_text(p: ProgressBar, filled: nat, pct: nat, eta_secs: Option<u32>) -> Seq<char> {
    (if p.prefix@.len() > 0 {
        p.prefix@ + seq![' ']
    } else {
        Seq::empty()
    }) + seq!['▕'] + repeated(p.fill, filled) + repeated(p.empty, (p.width - filled) as nat) + seq!['▏', ' '] + dec(pct)
        + seq!['%'] + match eta_secs {
        Some(s) => " ETA "@ + clock_spec(s),
        None => Seq::empty(),
    }
}

/// Pushes `c` onto `s` `n` times.
fn push_repeated(s: &mut String, c: char, n: usize)
    ensures
        final(s)@ == old(s)@ + repeated(c, n as nat),
{
    let mut i: usize = 0;
    while i < n
        invariant
            i <= n,
            s@ == old(s)@ + repeated(c, i as nat),
        decreases n - i,
    {
        push_char(s, c);
        i = i + 1;
        assert(s@ =~= old(s)@ + repeated(c, i as nat));
    }
}

impl ProgressBar {
    /// A bar over `total` steps, 40 wide, drawn with '█' and '░', no prefix.
    pub fn new(total: usize) -> (r: ProgressBar)
        ensures
            r.total == total,
            r.width == 40,
            r.fill == '█',
            r.empty == '░',
            r.prefix@ == Seq::<char>::empty(),
    {
        ProgressBar { total, width: 40, fill: '█', empty: '░', prefix: String::new() }
    }

    /// The same bar with another width.
    pub fn with_width(self, width: usize) -> (r: ProgressBar)
        ensures
            r.width == width,
            r.total == self.total,
            r.fill == self.fill,
            r.empty == self.empty,
            r.prefix@ == self.prefix@,
    {
        ProgressBar { width, ..self }
    }

    /// The same bar drawn with other characters.
    pub fn with_chars(self, fill: char, empty: char) -> (r: ProgressBar)
        ensures
            r.fill == fill,
            r.empty == empty,
            r.total == self.total,
            r.width == self.width,
            r.prefix@ == self.prefix@,
    {
        ProgressBar { fill, empty, ..self }
    }

    /// The same bar with a prefix.
    pub fn with_prefix(self, prefix: String) -> (r: ProgressBar)
        ensures
            r.prefix@ == prefix@,
            r.total == self.total,
            r.width == self.width,
            r.fill == self.fill,
            r.empty == self.empty,
    {
        ProgressBar { prefix, ..self }
    }

    /// The text of a frame with `filled` cells done, at `pct` percent, with
    /// `eta_secs` seconds estimated to go; see [`bar_text`].
    pub fn frame_text(&self, filled: usize, pct: u32, eta_secs: Option<u32>) -> (r: String)
        requires
            filled <= self.width,
        ensures
            r@ == bar_text(*self, filled as nat, pct as nat, eta_secs),
    {
        let mut s = String::new();
        if crate::text::chars_of(self.prefix.as_str()).len() > 0 {
            push_str(&mut s, self.prefix.as_str());
            push_char(&mut s, ' ');
        }
        push_char(&mut s, '▕');
        push_repeated(&mut s, self.fill, filled);
        push_repeated(&mut s, self.empty, self.width - filled);
        push_char(&mut s, '▏');
        push_char(&mut s, ' ');
        push_dec(&mut s, pct as u64);
        push_char(&mut s, '%');
        match eta_secs {
            Some(e) => {
                push_str(&mut s, " ETA ");
                let t = Timelike(e).to_string();
                push_str(&mut s, t.as_str());
            },
            None => {},
        }
        proof {
            reveal_strlit(" ETA ");
        }
        assert(s@ =~= bar_text(*self, filled as nat, pct as nat, eta_secs));
        s
    }
}

} // verus!
