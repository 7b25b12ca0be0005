//! Keys of items that know their own id and their parent's.

use vstd::prelude::*;

verus! {

/// An id and the id of the parent, if any.
#[derive(Clone, Copy, Debug, Default, PartialEq, Eq, Hash)]
pub struct MyKey<Key> {
    pub id: Key,
    pub parent: Option<Key>,
}

impl<Key> MyKey<Key> {
    /// The key of `id` under `parent`.
    pub fn new(id: Key, parent: Option<Key>) -> (r: MyKey<Key>)
        ensures
            r.id == id,
            r.parent == parent,
    {
        MyKey { id, parent }
    }
}

/// Items that carry a [`MyKey`].
pub trait Keyed {
    type Key: Copy;

    /// The keys the item reports.
    spec fn spec_keys(&self) -> MyKey<Self::Key>;

    /// The item's keys.
    fn keys(&self) -> (r: MyKey<Self::Key>)
        ensures
            r == self.spec_keys(),
    ;

    /// The item's own id.
    fn id(&self) -> (r: Self::Key)
        ensures
            r == self.spec_keys().id,
    {
        self.keys().id
    }

    /// The id of the item's parent, if any.
    fn parent(&self) -> (r: Option<Self::Key>)
        ensures
            r == self.spec_keys().parent,
    {
        self.keys().parent
    }
}

} // verus!
