//! Keys of a store whose records are numbered in the order of their making.

use vstd::prelude::*;
use vstd::std_specs::cmp::PartialEqSpecImpl;
use std::marker::PhantomData;

verus! {

/// The key of a record of type `T`.
#[derive(Debug)]
pub struct Id<T> {
    /// The number of the record.
    pub idx: u64,
    _phantom: PhantomData<T>,
}

impl<T> View for Id<T> {
    type V = u64;

    closed spec fn view(&self) -> u64 {
        self.idx
    }
}

impl<T> Id<T> {
    /// The key with the number `idx`.
    pub fn new(idx: u64) -> (r: Self)
        ensures
            r@ == idx,
    {
        Id { idx, _phantom: PhantomData }
    }

    /// The key for the next record of a store whose highest key is `last`:
    /// the one after it, or zero for an empty store.
    pub fn after(last: Option<u64>) -> (r: Self)
        requires
            last != Some(u64::MAX),
        ensures
            r@ == match last {
                Some(key) => key + 1,
                None => 0,
            },
    {
        let idx = match last {
            Some(key) => key + 1,
            None => 0,
        };
        Id { idx, _phantom: PhantomData }
    }
}

impl<T> Clone for Id<T> {
    fn clone(&self) -> (r: Self)
        ensures
            r@ == self@,
    {
        Id { idx: self.idx, _phantom: PhantomData }
    }
}

impl<T> Copy for Id<T> {

}

impl<T> PartialEq for Id<T> {
    fn eq(&self, other: &Self) -> (r: bool) {
        self.idx == other.idx
    }
}

impl<T> PartialEqSpecImpl for Id<T> {
    open spec fn obeys_eq_spec() -> bool {
        true
    }

    open spec fn eq_spec(&self, other: &Self) -> bool {
        self@ == other@
    }
}

impl<T> Eq for Id<T> {

}

} // verus!
