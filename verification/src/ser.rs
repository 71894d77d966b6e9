//! Which values are left out when a record is written.

use crate::maps::TextMap;
use vstd::prelude::*;

verus! {

/// A value that may be empty, and is then not written.
pub trait Skip {
    spec fn vacant(&self) -> bool;

    fn skip(&self) -> (r: bool)
        ensures
            r == self.vacant(),
    ;
}

impl Skip for String {
    open spec fn vacant(&self) -> bool {
        self@.len() == 0
    }

    fn skip(&self) -> (r: bool) {
        self.as_str().is_empty()
    }
}

impl Skip for bool {
    open spec fn vacant(&self) -> bool {
        !*self
    }

    fn skip(&self) -> (r: bool) {
        !*self
    }
}

impl Skip for i32 {
    open spec fn vacant(&self) -> bool {
        *self == 0
    }

    fn skip(&self) -> (r: bool) {
        *self == 0
    }
}

impl<T> Skip for Option<T> {
    open spec fn vacant(&self) -> bool {
        self is None
    }

    fn skip(&self) -> (r: bool) {
        self.is_none()
    }
}

impl<T> Skip for Vec<T> {
    open spec fn vacant(&self) -> bool {
        self@.len() == 0
    }

    fn skip(&self) -> (r: bool) {
        self.len() == 0
    }
}

impl<V: DeepView> Skip for TextMap<V> {
    open spec fn vacant(&self) -> bool {
        self.deep_view() == Map::<Seq<char>, V::V>::empty()
    }

    fn skip(&self) -> (r: bool) {
        self.is_empty()
    }
}

/// Whether `value` is left out.
pub fn skip<T: Skip>(value: &T) -> (r: bool)
    ensures
        r == value.vacant(),
{
    value.skip()
}

} // verus!
