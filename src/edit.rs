use vstd::prelude::*;

pub mod collection;
pub mod enm;
pub mod map;
pub mod string;

verus! {

/// The outcome of comparing two values: nothing changed, or what changed.
#[derive(Clone, Debug, PartialEq)]
pub enum Edit<'a, T, D> {
    /// Nothing changed; holds the left value.
    Copy(&'a T),
    /// Something changed; holds the description of the change.
    Change(D),
}

impl<'a, T, D> Edit<'a, T, D> {
    pub fn is_copy(&self) -> (r: bool)
        ensures
            r == (*self is Copy),
    {
        if let Edit::Copy(_) = self {
            true
        } else {
            false
        }
    }

    pub fn is_change(&self) -> (r: bool)
        ensures
            r == (*self is Change),
    {
        if let Edit::Change(_) = self {
            true
        } else {
            false
        }
    }

    pub fn copy(&self) -> (r: Option<&'a T>)
        ensures
            match *self {
                Edit::Copy(v) => r == Some(v),
                _ => r is None,
            },
    {
        if let Edit::Copy(value) = self {
            Some(value)
        } else {
            None
        }
    }

    pub fn change(&self) -> (r: Option<&D>)
        ensures
            match *self {
                Edit::Change(d) => r is Some && *r->0 == d,
                _ => r is None,
            },
    {
        if let Edit::Change(value_diff) = self {
            Some(value_diff)
        } else {
            None
        }
    }
}

} // verus!
