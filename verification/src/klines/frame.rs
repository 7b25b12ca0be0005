//! The integer side of reading a candle frame: which of the required columns
//! a frame lacks, the step between its candles, and where a time stands in its
//! time index.

use vstd::prelude::*;

use crate::text::str_eq;

verus! {

/// The columns a frame of candles must have, in order.
pub open spec fn required_columns() -> Seq<Seq<char>> {
    seq!["open"@, "high"@, "low"@, "close"@]
}

/// Of `req`, in order, the names that `names` does not hold.
pub open spec fn missing_of(names: Seq<Seq<char>>, req: Seq<Seq<char>>) -> Seq<Seq<char>>
    decreases req.len(),
{
    if req.len() == 0 {
        Seq::empty()
    } else if names.contains(req.last()) {
        missing_of(names, req.drop_last())
    } else {
        missing_of(names, req.drop_last()).push(req.last())
    }
}

/// Whether `names` holds `name`.
fn has_name(names: &[&str], name: &str) -> (r: bool)
    ensures
        r == names@.map_values(|n: &str| n@).contains(name@),
{
    let ghost ns = names@.map_values(|n: &str| n@);
    let mut i: usize = 0;
    while i < names.len()
        invariant
            i <= names@.len(),
            ns == names@.map_values(|n: &str| n@),
            forall|j: int| 0 <= j < i ==> ns[j] != name@,
        decreases names@.len() - i,
    {
        if str_eq(names[i], name) {
            assert(ns[i as int] == name@);
            return true;
        }
        i = i + 1;
    }
    false
}

/// The required columns (`open`, `high`, `low`, `close`) that a frame with
/// columns `names` lacks, in that order; empty when it has them all.
pub fn missing_columns(names: &[&str]) -> (r: Vec<&'static str>)
    ensures
        r@.map_values(|n: &str| n@) == missing_of(names@.map_values(|n: &str| n@), required_columns()),
{
    let req: [&'static str; 4] = ["open", "high", "low", "close"];
    let ghost rq = req@.map_values(|n: &str| n@);
    assert(rq =~= required_columns());
    let ghost ns = names@.map_values(|n: &str| n@);
    let mut r: Vec<&'static str> = Vec::new();
    let mut i: usize = 0;
    while i < 4
        invariant
            i <= 4,
            req@.len() == 4,
            rq == req@.map_values(|n: &str| n@),
            ns == names@.map_values(|n: &str| n@),
            r@.map_values(|n: &str| n@) == missing_of(ns, rq.subrange(0, i as int)),
        decreases 4 - i,
    {
        assert(rq.subrange(0, i + 1).drop_last() =~= rq.subrange(0, i as int));
        let name = req[i];
        if !has_name(names, name) {
            r.push(name);
            assert(r@.map_values(|n: &str| n@) =~= missing_of(ns, rq.subrange(0, i as int)).push(name@));
        }
        i = i + 1;
    }
    assert(rq.subrange(0, 4) =~= rq);
    r
}

/// The step between candles, in milliseconds: the third time less the second.
pub fn step_ms(index: &[i64]) -> (r: i64)
    requires
        index@.len() >= 3,
        i64::MIN <= index@[2] - index@[1] <= i64::MAX,
    ensures
        r == index@[2] - index@[1],
{
    index[2] - index[1]
}

/// Where time `target` stands in a time index (its values read as `usize`,
/// ascending): a binary search, for a time the index holds.
pub fn find_index(index: &[i64], target: usize) -> (r: usize)
    requires
        forall|i: int, j: int| 0 <= i <= j < index@.len() ==> (index@[i] as usize) <= (index@[j] as usize),
        exists|k: int| 0 <= k < index@.len() && (index@[k] as usize) == target,
    ensures
        r < index@.len(),
        (index@[r as int] as usize) == target,
{
    let mut a: usize = 0;
    let mut b: usize = index.len() - 1;
    while a <= b
        invariant
            b < index@.len(),
            forall|i: int, j: int| 0 <= i <= j < index@.len() ==> (index@[i] as usize) <= (index@[j] as usize),
            exists|k: int| a <= k <= b && (index@[k] as usize) == target,
        decreases b + 1 - a,
    {
        let mean = a + (b - a) / 2;
        let v = index[mean] as usize;
        if v < target {
            a = mean + 1;
        } else if v > target {
            b = mean - 1;
        } else {
            return mean;
        }
    }
    0
}

/// Why a frame cannot be read as candles.
#[derive(Clone, Debug, PartialEq, Eq)]
pub enum KlinesError {
    /// The first column is not an `i64` index of milliseconds.
    IndexNotMillis,
    /// Required columns are missing; these, in order.
    MissingColumns(Vec<&'static str>),
}

/// Checks a frame before it is taken as candles: its first column must be an
/// `i64` index of milliseconds (`index_is_i64`), and it must have the columns
/// `open`, `high`, `low` and `close`. Then it gives the step between candles,
/// read off the second and third times, from which the timeframe is guessed.
pub fn validate_klines_frame(index_is_i64: bool, names: &[&str], index: &[i64]) -> (r: Result<i64, KlinesError>)
    requires
        index_is_i64 && missing_of(names@.map_values(|n: &str| n@), required_columns()).len() == 0 ==> {
            &&& index@.len() >= 3
            &&& i64::MIN <= index@[2] - index@[1] <= i64::MAX
        },
    ensures
        !index_is_i64 ==> r == Err::<i64, KlinesError>(KlinesError::IndexNotMillis),
        index_is_i64 && missing_of(names@.map_values(|n: &str| n@), required_columns()).len() != 0 ==> (r matches Err(
            KlinesError::MissingColumns(m),
        ) && m@.map_values(|n: &str| n@) == missing_of(names@.map_values(|n: &str| n@), required_columns())),
        index_is_i64 && missing_of(names@.map_values(|n: &str| n@), required_columns()).len() == 0 ==> r
            == Ok::<i64, KlinesError>((index@[2] - index@[1]) as i64),
{
    if !index_is_i64 {
        return Err(KlinesError::IndexNotMillis);
    }
    let missing = missing_columns(names);
    if missing.len() > 0 {
        return Err(KlinesError::MissingColumns(missing));
    }
    assert(missing@.map_values(|n: &str| n@).len() == 0);
    Ok(step_ms(index))
}

} // verus!
