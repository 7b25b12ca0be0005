//! The text layout of simplified price snapshots: blocks of lines set side
//! by side, and order levels spread over the prices they stand for.

use vstd::prelude::*;

use crate::text::{join_with, lemma_split_on_nonempty, push_char, split_chars, split_on, string_from};

verus! {

/// A line with one trailing carriage return taken off.
pub open spec fn strip_cr(l: Seq<char>) -> Seq<char> {
    if l.len() > 0 && l.last() == '\r' {
        l.drop_last()
    } else {
        l
    }
}

/// The lines of a text, as `str::lines` gives them: split at `\n`, a final
/// line ending adding no empty line, and `\r\n` ending a line like `\n`.
pub open spec fn lines_of(s: Seq<char>) -> Seq<Seq<char>> {
    let p = split_on(s, '\n');
    let ended = p.drop_last().map_values(|l: Seq<char>| strip_cr(l));
    if p.last().len() > 0 {
        ended.push(p.last())
    } else {
        ended
    }
}

/// Each line of `left` followed by the line of `right` at the same place,
/// as far as both have lines, joined by `\n`.
pub open spec fn side_by_side(left: Seq<char>, right: Seq<char>) -> Seq<char> {
    let l = lines_of(left);
    let r = lines_of(right);
    let n = if l.len() < r.len() {
        l.len()
    } else {
        r.len()
    };
    join_with(Seq::new(n, |i: int| l[i] + r[i]), seq!['\n'])
}

/// The lines of a text.
fn lines(s: &str) -> (r: Vec<Vec<char>>)
    ensures
        r@.len() == lines_of(s@).len(),
        forall|i: int| 0 <= i < r@.len() ==> #[trigger] r@[i]@ == lines_of(s@)[i],
{
    let cs = crate::text::chars_of(s);
    let parts = split_chars(cs.as_slice(), '\n');
    proof {
        lemma_split_on_nonempty(s@, '\n');
    }
    let ghost p = split_on(s@, '\n');
    let mut r: Vec<Vec<char>> = Vec::new();
    let mut i: usize = 0;
    while i < parts.len() - 1
        invariant
            parts@.len() == p.len(),
            p.len() >= 1,
            forall|k: int| 0 <= k < parts@.len() ==> #[trigger] parts@[k]@ == p[k],
            i + 1 <= parts@.len(),
            r@.len() == i,
            forall|k: int| 0 <= k < i ==> #[trigger] r@[k]@ == strip_cr(p[k]),
        decreases parts@.len() - i,
    {
        let part = &parts[i];
        let mut line: Vec<char> = part.clone();
        assert(line@ == p[i as int]);
        if line.len() > 0 && line[line.len() - 1] == '\r' {
            line.pop();
        }
        r.push(line);
        i = i + 1;
    }
    let last = &parts[parts.len() - 1];
    if last.len() > 0 {
        r.push(last.clone());
    }
    proof {
        let ended = p.drop_last().map_values(|l: Seq<char>| strip_cr(l));
        assert forall|k: int| 0 <= k < ended.len() implies #[trigger] ended[k] == strip_cr(p[k]) by {}
        if p.last().len() > 0 {
            assert(r@[r@.len() - 1]@ == p.last());
        }
    }
    r
}

/// Sets two blocks of text side by side: each line of `left` followed by
/// the line of `right` at the same place. The blocks must have as many
/// `\n`-separated pieces.
pub fn join_str_blocks_v(left: String, right: String) -> (r: String)
    requires
        split_on(left@, '\n').len() == split_on(right@, '\n').len(),
    ensures
        r@ == side_by_side(left@, right@),
{
    let l = lines(left.as_str());
    let rl = lines(right.as_str());
    let n = if l.len() < rl.len() {
        l.len()
    } else {
        rl.len()
    };
    let ghost rows = Seq::new(n as nat, |i: int| lines_of(left@)[i] + lines_of(right@)[i]);
    let mut out = String::new();
    let mut i: usize = 0;
    while i < n
        invariant
            n <= l@.len(),
            n <= rl@.len(),
            i <= n,
            rows.len() == n,
            forall|k: int| 0 <= k < l@.len() ==> #[trigger] l@[k]@ == lines_of(left@)[k],
            forall|k: int| 0 <= k < rl@.len() ==> #[trigger] rl@[k]@ == lines_of(right@)[k],
            rows == Seq::new(n as nat, |k: int| lines_of(left@)[k] + lines_of(right@)[k]),
            out@ == join_with(rows.subrange(0, i as int), seq!['\n']),
        decreases n - i,
    {
        let ghost before = out@;
        if i > 0 {
            push_char(&mut out, '\n');
        }
        let row_l = string_from(l[i].as_slice());
        let row_r = string_from(rl[i].as_slice());
        crate::text::push_str(&mut out, row_l.as_str());
        crate::text::push_str(&mut out, row_r.as_str());
        proof {
            let sub = rows.subrange(0, i + 1);
            assert(sub.drop_last() =~= rows.subrange(0, i as int));
            assert(sub.last() == l@[i as int]@ + rl@[i as int]@);
            if i == 0 {
                assert(join_with(rows.subrange(0, 0), seq!['\n']) =~= Seq::<char>::empty());
                assert(out@ =~= sub.last());
            } else {
                assert(out@ =~= before + seq!['\n'] + sub.last());
            }
        }
        i = i + 1;
    }
    assert(rows.subrange(0, n as int) =~= rows);
    out
}

/// The level of the orders at price `i`: that of the last order placed at
/// or before `i`, none before the first.
pub open spec fn order_point<T>(orders: Seq<(usize, Option<T>)>, i: int) -> Option<T>
    decreases orders.len(),
{
    if orders.len() == 0 {
        None
    } else if orders.last().0 <= i {
        orders.last().1
    } else {
        order_point(orders.drop_last(), i)
    }
}

/// The orders stand at strictly increasing places.
pub open spec fn ascending<T>(orders: Seq<(usize, Option<T>)>) -> bool {
    forall|a: int, b: int| 0 <= a < b < orders.len() ==> orders[a].0 < orders[b].0
}

/// Between order `m` and the next one, the level is that of order `m`.
proof fn lemma_order_point_between<T>(orders: Seq<(usize, Option<T>)>, m: int, i: int)
    requires
        ascending(orders),
        0 <= m < orders.len(),
        orders[m].0 <= i,
        m + 1 == orders.len() || i < orders[m + 1].0,
    ensures
        order_point(orders, i) == orders[m].1,
    decreases orders.len(),
{
    if m + 1 < orders.len() {
        assert(orders.last().0 >= orders[m + 1].0);
        lemma_order_point_between(orders.drop_last(), m, i);
    }
}

/// Before the first order there is no level.
proof fn lemma_order_point_before<T>(orders: Seq<(usize, Option<T>)>, i: int)
    requires
        ascending(orders),
        orders.len() > 0,
        i < orders[0].0,
    ensures
        order_point(orders, i) is None,
    decreases orders.len(),
{
    if orders.len() > 1 {
        assert(orders.last().0 > orders[0].0);
        lemma_order_point_before(orders.drop_last(), i);
    } else {
        assert(order_point(orders.drop_last(), i) is None);
    }
}

/// The level of the orders at each of `n` prices; see [`order_point`].
/// The orders must stand at strictly increasing places below `n`.
pub fn order_points<T: Copy>(n: usize, orders: &[(usize, Option<T>)]) -> (r: Vec<Option<T>>)
    requires
        ascending(orders@),
        forall|k: int| 0 <= k < orders@.len() ==> #[trigger] orders@[k].0 < n,
    ensures
        r@.len() == n,
        forall|i: int| 0 <= i < n ==> #[trigger] r@[i] == order_point(orders@, i),
{
    let mut out: Vec<Option<T>> = Vec::new();
    let mut level: Option<T> = None;
    let mut k: usize = 0;
    while k < orders.len()
        invariant
            k <= orders@.len(),
            ascending(orders@),
            forall|j: int| 0 <= j < orders@.len() ==> #[trigger] orders@[j].0 < n,
            k == 0 ==> out@.len() == 0 && level is None,
            k > 0 ==> out@.len() == orders@[k - 1].0 && level == orders@[k - 1].1,
            forall|i: int| 0 <= i < out@.len() ==> #[trigger] out@[i] == order_point(orders@, i),
        decreases orders@.len() - k,
    {
        let at = orders[k].0;
        while out.len() < at
            invariant
                out@.len() <= at,
                at == orders@[k as int].0,
                k < orders@.len(),
                ascending(orders@),
                k == 0 ==> level is None,
                k > 0 ==> orders@[k - 1].0 <= out@.len() && level == orders@[k - 1].1,
                forall|i: int| 0 <= i < out@.len() ==> #[trigger] out@[i] == order_point(orders@, i),
            decreases at - out@.len(),
        {
            proof {
                let i = out@.len() as int;
                if k == 0 {
                    lemma_order_point_before(orders@, i);
                } else {
                    lemma_order_point_between(orders@, k - 1, i);
                }
            }
            out.push(level);
        }
        level = orders[k].1;
        k = k + 1;
    }
    while out.len() < n
        invariant
            out@.len() <= n,
            k == orders@.len(),
            ascending(orders@),
            k == 0 ==> level is None,
            k > 0 ==> orders@[k - 1].0 <= out@.len() && level == orders@[k - 1].1,
            forall|i: int| 0 <= i < out@.len() ==> #[trigger] out@[i] == order_point(orders@, i),
        decreases n - out@.len(),
    {
        proof {
            if k > 0 {
                lemma_order_point_between(orders@, k - 1, out@.len() as int);
            }
        }
        out.push(level);
    }
    out
}

} // verus!
