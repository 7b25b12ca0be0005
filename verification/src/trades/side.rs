//! The side of an order.

use vstd::prelude::*;

use crate::text::{ascii_lowercase, push_str, str_eq, to_uppercase, uppercase};

verus! {

broadcast use vstd::string::group_string_axioms;

/// Buying or selling.
#[derive(Clone, Copy, Debug, PartialEq, Eq, Structural)]
pub enum Side {
    Buy,
    Sell,
}

impl Side {
    /// The exchange spelling: `"BUY"` or `"SELL"`.
    pub open spec fn spec_to_str(self) -> Seq<char> {
        match self {
            Side::Buy => seq!['B', 'U', 'Y'],
            Side::Sell => seq!['S', 'E', 'L', 'L'],
        }
    }

    /// The side a text names, whatever its case: `BUY` or `SELL` once uppercased.
    pub open spec fn parse_spec(s: Seq<char>) -> Option<Side> {
        if uppercase(s) == seq!['B', 'U', 'Y'] {
            Some(Side::Buy)
        } else if uppercase(s) == seq!['S', 'E', 'L', 'L'] {
            Some(Side::Sell)
        } else {
            None
        }
    }

    /// The exchange spelling of the side.
    pub fn to_str(&self) -> (r: &'static str)
        ensures
            r@ == self.spec_to_str(),
    {
        match self {
            Side::Buy => {
                proof { reveal_strlit("BUY"); }
                "BUY"
            },
            Side::Sell => {
                proof { reveal_strlit("SELL"); }
                "SELL"
            },
        }
    }

    /// The text form of the side (what `Display` writes).
    pub fn to_string(&self) -> (r: String)
        ensures
            r@ == self.spec_to_str(),
    {
        self.to_str().to_owned()
    }

    /// Reads a side in any letter case; the error says which text was refused.
    pub fn from_str(s: &str) -> (r: Result<Side, String>)
        ensures
            match Self::parse_spec(s@) {
                Some(side) => r == Ok::<Side, String>(side),
                None => r is Err && r->Err_0@ == "Invalid side: "@ + s@,
            },
    {
        let upper = to_uppercase(s);
        let buy = "BUY";
        let sell = "SELL";
        proof {
            reveal_strlit("BUY");
            reveal_strlit("SELL");
            assert(buy@ =~= seq!['B', 'U', 'Y']);
            assert(sell@ =~= seq!['S', 'E', 'L', 'L']);
        }
        if str_eq(upper.as_str(), buy) {
            Ok(Side::Buy)
        } else if str_eq(upper.as_str(), sell) {
            Ok(Side::Sell)
        } else {
            let mut msg = "Invalid side: ".to_owned();
            push_str(&mut msg, s);
            Err(msg)
        }
    }
}

impl Default for Side {
    /// `Buy`; a placeholder for structures that hold a side.
    fn default() -> (r: Side)
        ensures
            r == Side::Buy,
    {
        Side::Buy
    }
}

/// Law: a side's text reads back as that side, in capitals or in lowercase.
pub proof fn law_side_text_roundtrip(side: Side)
    ensures
        Side::parse_spec(side.spec_to_str()) == Some(side),
        Side::parse_spec(ascii_lowercase(side.spec_to_str())) == Some(side),
{
    reveal_with_fuel(uppercase, 5);
    reveal_with_fuel(ascii_lowercase, 5);
    let buy = seq!['B', 'U', 'Y'];
    let sell = seq!['S', 'E', 'L', 'L'];
    assert(buy.drop_last() =~= seq!['B', 'U']);
    assert(buy.drop_last().drop_last() =~= seq!['B']);
    assert(buy.drop_last().drop_last().drop_last() =~= Seq::<char>::empty());
    assert(sell.drop_last() =~= seq!['S', 'E', 'L']);
    assert(sell.drop_last().drop_last() =~= seq!['S', 'E']);
    assert(sell.drop_last().drop_last().drop_last() =~= seq!['S']);
    assert(sell.drop_last().drop_last().drop_last().drop_last() =~= Seq::<char>::empty());
    let lbuy = ascii_lowercase(buy);
    let lsell = ascii_lowercase(sell);
    assert(lbuy =~= seq!['b', 'u', 'y']);
    assert(lsell =~= seq!['s', 'e', 'l', 'l']);
    assert(lbuy.drop_last() =~= seq!['b', 'u']);
    assert(lbuy.drop_last().drop_last() =~= seq!['b']);
    assert(lbuy.drop_last().drop_last().drop_last() =~= Seq::<char>::empty());
    assert(lsell.drop_last() =~= seq!['s', 'e', 'l']);
    assert(lsell.drop_last().drop_last() =~= seq!['s', 'e']);
    assert(lsell.drop_last().drop_last().drop_last() =~= seq!['s']);
    assert(lsell.drop_last().drop_last().drop_last().drop_last() =~= Seq::<char>::empty());
    assert(uppercase(buy) =~= buy);
    assert(uppercase(sell) =~= sell);
    assert(uppercase(lbuy) =~= buy);
    assert(uppercase(lsell) =~= sell);
}

} // verus!
