//! A value that is owned, or what such a value points to.

use core::ops::Deref;
use vstd::prelude::*;

verus! {

/// A value that is owned, or what such a value points to.
pub enum OwningOrRef<'a, T> where T: Deref {
    Owning(T),
    Ref(&'a T::Target),
}

impl<'a, T> OwningOrRef<'a, T> where T: Deref {
    /// The value, if it is owned.
    pub fn into_inner(self) -> (r: Option<T>)
        ensures
            r == match self {
                OwningOrRef::Owning(a) => Some(a),
                OwningOrRef::Ref(_) => None,
            },
    {
        match self {
            OwningOrRef::Owning(a) => Some(a),
            OwningOrRef::Ref(_) => None,
        }
    }
}

} // verus!
