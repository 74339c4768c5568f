use vstd::prelude::*;

pub mod diffable_impls;
pub mod edit;
pub mod lcs;
pub mod same;

pub use crate::same::Same;

verus! {

/// A value that can be compared with another value of its type.
pub trait Diffable<'a>: Sized + 'a {
    /// The description of a change.
    type Diff;

    /// Holds when diffing `self` against `other` finds nothing changed.
    spec fn unchanged(&self, other: &Self) -> bool;

    /// Holds when `d` describes exactly how `self` changed into `other`: the
    /// detail that `diff` reports when the two values differ.
    spec fn changed_to(&self, other: &Self, d: Self::Diff) -> bool;

    /// A value is unchanged against itself.
    proof fn lemma_unchanged_reflexive(&self)
        ensures
            self.unchanged(self),
    ;

    /// Compares `self` with `other`: `Copy` of `self` when nothing changed,
    /// otherwise `Change` with a description of what did.
    fn diff(&'a self, other: &'a Self) -> (r: edit::Edit<'a, Self, Self::Diff>)
        ensures
            r is Copy <==> self.unchanged(other),
            r matches edit::Edit::Copy(v) ==> v == self,
            r matches edit::Edit::Change(d) ==> self.changed_to(other, d),
    ;
}

} // verus!
