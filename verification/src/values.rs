//! Values that flow between templates.

use vstd::prelude::*;

verus! {

/// A value that is passed as an artifact, through the object store.
pub struct Artifact<T> {
    inner: T,
}

impl<T> View for Artifact<T> {
    type V = T;

    closed spec fn view(&self) -> T {
        self.inner
    }
}

impl<T> Artifact<T> {
    /// Marks a value as one that is passed as an artifact.
    pub fn new(v: T) -> (r: Artifact<T>)
        ensures
            r@ == v,
    {
        Artifact { inner: v }
    }

    /// The value itself.
    pub fn into_inner(self) -> (r: T)
        ensures
            r == self@,
    {
        self.inner
    }
}

impl<T: Clone> Clone for Artifact<T> {
    fn clone(&self) -> (r: Artifact<T>)
        ensures
            cloned(self@, r@),
    {
        Artifact { inner: self.inner.clone() }
    }
}

/// A list that a fan-out can walk. An [`Artifact`] is none.
pub trait AthenaList<T> {

}

impl<T> AthenaList<T> for Vec<T> {

}

impl<T, const N: usize> AthenaList<T> for [T; N] {

}

/// A type whose values can stand in an attribute: its JSON form, without
/// quotation marks, is the value as it is written.
pub trait Injectable {

}

impl Injectable for String {

}

impl Injectable for str {

}

impl Injectable for i8 {

}

impl Injectable for i16 {

}

impl Injectable for i32 {

}

impl Injectable for i64 {

}

impl Injectable for i128 {

}

impl Injectable for isize {

}

impl Injectable for u8 {

}

impl Injectable for u16 {

}

impl Injectable for u32 {

}

impl Injectable for u64 {

}

impl Injectable for u128 {

}

impl Injectable for usize {

}

} // verus!
