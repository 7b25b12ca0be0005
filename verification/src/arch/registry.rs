//! The bookkeeping of a component registry: which component ids are valid,
//! and which components are lent out for a lifecycle call, so that no
//! component is lent twice at once.

use vstd::prelude::*;

use crate::text::{chars_of, str_eq};

verus! {

broadcast use vstd::string::group_string_axioms;

/// Whether a text may name a component: non-empty and all ASCII.
pub open spec fn valid_id(s: Seq<char>) -> bool {
    s.len() > 0 && forall|i: int| 0 <= i < s.len() ==> (#[trigger] s[i] as u32) < 128
}

/// Whether `value` may name a component.
pub fn is_valid_id(value: &str) -> (r: bool)
    ensures
        r == valid_id(value@),
{
    let cs = chars_of(value);
    if cs.len() == 0 {
        return false;
    }
    let mut i: usize = 0;
    while i < cs.len()
        invariant
            i <= cs@.len(),
            cs@ == value@,
            forall|k: int| 0 <= k < i ==> (#[trigger] cs@[k] as u32) < 128,
        decreases cs@.len() - i,
    {
        if cs[i] as u32 >= 128 {
            return false;
        }
        i = i + 1;
    }
    true
}

/// The ids of the components lent out, each once.
#[derive(Debug, Default)]
pub struct BorrowSet {
    ids: Vec<String>,
}

impl BorrowSet {
    /// No id occurs twice.
    #[verifier::type_invariant]
    spec fn distinct(&self) -> bool {
        forall|i: int, j: int| 0 <= i < j < self.ids@.len() ==> self.ids@[i]@ != self.ids@[j]@
    }

    /// The ids lent out.
    pub closed spec fn lent(&self) -> Set<Seq<char>> {
        Set::new(|s: Seq<char>| exists|i: int| 0 <= i < self.ids@.len() && self.ids@[i]@ == s)
    }

    /// Nothing lent out.
    pub fn new() -> (r: BorrowSet)
        ensures
            r.lent() == Set::<Seq<char>>::empty(),
    {
        let r = BorrowSet { ids: Vec::new() };
        assert(r.lent() =~= Set::<Seq<char>>::empty());
        r
    }

    /// Where `id` stands among the ids lent out.
    fn position(&self, id: &str) -> (r: Option<usize>)
        ensures
            r matches Some(i) ==> i < self.ids@.len() && self.ids@[i as int]@ == id@,
            r is None ==> !self.lent().contains(id@),
    {
        let mut i: usize = 0;
        while i < self.ids.len()
            invariant
                i <= self.ids@.len(),
                forall|k: int| 0 <= k < i ==> self.ids@[k]@ != id@,
            decreases self.ids@.len() - i,
        {
            if str_eq(self.ids[i].as_str(), id) {
                return Some(i);
            }
            i = i + 1;
        }
        None
    }

    /// Whether `id` is lent out.
    pub fn is_borrowed(&self, id: &str) -> (r: bool)
        ensures
            r == self.lent().contains(id@),
    {
        match self.position(id) {
            Some(i) => {
                assert(self.lent().contains(id@)) by {
                    assert(self.ids@[i as int]@ == id@);
                }
                true
            },
            None => false,
        }
    }

    /// Lends out `id`, unless it is already: `true` when it was free.
    pub fn try_borrow(&mut self, id: &str) -> (r: bool)
        ensures
            r == !old(self).lent().contains(id@),
            final(self).lent() == old(self).lent().insert(id@),
    {
        proof {
            use_type_invariant(&*self);
        }
        match self.position(id) {
            Some(i) => {
                assert(self.lent().contains(id@)) by {
                    assert(self.ids@[i as int]@ == id@);
                }
                assert(self.lent().insert(id@) =~= self.lent());
                false
            },
            None => {
                let ghost before = self.lent();
                let mut ids: Vec<String> = Vec::new();
                std::mem::swap(&mut ids, &mut self.ids);
                ids.push(id.to_owned());
                self.ids = ids;
                assert(self.lent() =~= before.insert(id@)) by {
                    assert forall|s: Seq<char>| self.lent().contains(s) implies before.insert(id@).contains(s) by {
                        let i = choose|i: int| 0 <= i < self.ids@.len() && self.ids@[i]@ == s;
                        if i < self.ids@.len() - 1 {
                            assert(old(self).ids@[i]@ == s);
                        }
                    }
                    assert forall|s: Seq<char>| before.insert(id@).contains(s) implies self.lent().contains(s) by {
                        if s == id@ {
                            assert(self.ids@[self.ids@.len() - 1]@ == s);
                        } else {
                            let i = choose|i: int| 0 <= i < old(self).ids@.len() && old(self).ids@[i]@ == s;
                            assert(self.ids@[i]@ == s);
                        }
                    }
                }
                true
            },
        }
    }

    /// Takes `id` back.
    pub fn release(&mut self, id: &str)
        ensures
            final(self).lent() == old(self).lent().remove(id@),
    {
        proof {
            use_type_invariant(&*self);
        }
        match self.position(id) {
            Some(i) => {
                let ghost before = self.ids@;
                let mut ids: Vec<String> = Vec::new();
                std::mem::swap(&mut ids, &mut self.ids);
                ids.remove(i);
                self.ids = ids;
                assert(self.lent() =~= old(self).lent().remove(id@)) by {
                    assert forall|s: Seq<char>| self.lent().contains(s) implies old(self).lent().remove(id@).contains(s) by {
                        let k = choose|k: int| 0 <= k < self.ids@.len() && self.ids@[k]@ == s;
                        let ko = if k < i { k } else { k + 1 };
                        assert(before[ko]@ == s);
                        assert(ko != i);
                    }
                    assert forall|s: Seq<char>| old(self).lent().remove(id@).contains(s) implies self.lent().contains(s) by {
                        let k = choose|k: int| 0 <= k < before.len() && before[k]@ == s;
                        assert(k != i);
                        let kn = if k < i { k } else { k - 1 };
                        assert(self.ids@[kn]@ == s);
                    }
                }
            },
            None => {
                assert(old(self).lent().remove(id@) =~= old(self).lent());
            },
        }
    }
}

/// Law: a component cannot be lent twice at once, and taking it back makes
/// it lendable again: lending twice refuses the second time, and lending,
/// then taking back, leaves the set as it was when the id was free.
/// (By the contracts of [`BorrowSet::try_borrow`] and [`BorrowSet::release`],
/// stated over what a set lends out.)
pub proof fn law_borrow_release(b: BorrowSet, id: Seq<char>)
    requires
        !b.lent().contains(id),
    ensures
        b.lent().insert(id).contains(id),
        b.lent().insert(id).remove(id) == b.lent(),
{
    assert(b.lent().insert(id).remove(id) =~= b.lent());
}

} // verus!
