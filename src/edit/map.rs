use vstd::prelude::*;

verus! {

/// The outcome for one entry of a keyed or ordered collection.
#[derive(Clone, Debug, PartialEq)]
pub enum Edit<'a, T, D> {
    /// Present on both sides and unchanged; holds the left value.
    Copy(&'a T),
    /// Present on the right side only.
    Insert(&'a T),
    /// Present on the left side only.
    Remove(&'a T),
    /// Present on both sides with changed contents; holds the change.
    Change(D),
}

impl<'a, T, D> Edit<'a, T, D> {
    pub fn is_insert(&self) -> (r: bool)
        ensures
            r == (*self is Insert),
    {
        if let Edit::Insert(_) = self {
            true
        } else {
            false
        }
    }

    pub fn is_remove(&self) -> (r: bool)
        ensures
            r == (*self is Remove),
    {
        if let Edit::Remove(_) = self {
            true
        } else {
            false
        }
    }

    pub fn is_copy(&self) -> (r: bool)
        ensures
            r == (*self is Copy),
    {
        if let Edit::Copy(_) = self {
            true
        } else {
            false
        }
    }

    pub fn is_change(&self) -> (r: bool)
        ensures
            r == (*self is Change),
    {
        if let Edit::Change(_) = self {
            true
        } else {
            false
        }
    }

    pub fn insert(&self) -> (r: Option<&'a T>)
        ensures
            match *self {
                Edit::Insert(v) => r == Some(v),
                _ => r is None,
            },
    {
        if let Edit::Insert(value) = self {
            Some(value)
        } else {
            None
        }
    }

    pub fn remove(&self) -> (r: Option<&'a T>)
        ensures
            match *self {
                Edit::Remove(v) => r == Some(v),
                _ => r is None,
            },
    {
        if let Edit::Remove(value) = self {
            Some(value)
        } else {
            None
        }
    }

    pub fn change(&self) -> (r: Option<&D>)
        ensures
            match *self {
                Edit::Change(d) => r is Some && *r->0 == d,
                _ => r is None,
            },
    {
        if let Edit::Change(value_diff) = self {
            Some(value_diff)
        } else {
            None
        }
    }

    pub fn copy(&self) -> (r: Option<&'a T>)
        ensures
            match *self {
                Edit::Copy(v) => r == Some(v),
                _ => r is None,
            },
    {
        if let Edit::Copy(value) = self {
            Some(value)
        } else {
            None
        }
    }
}

} // verus!
