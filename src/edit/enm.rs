use vstd::prelude::*;

verus! {

/// The change between two values of a tagged union.
#[derive(Clone, Debug, PartialEq)]
pub enum Edit<'a, T, D> {
    /// Both sides hold the same variant; holds the change of its payload.
    AssociatedChanged(D),
    /// The sides hold different variants; holds both whole values.
    VariantChanged(&'a T, &'a T),
}

} // verus!
verus! {

/// The payload change of two values that both hold `Ok` or both hold `Err`.
/// `Success` stands for `Ok` and `Failure` for `Err`.
#[derive(Clone, Debug, PartialEq)]
pub enum EditedResult<D, E> {
    Success(D),
    Failure(E),
}

} // verus!
