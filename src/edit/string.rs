use vstd::prelude::*;

verus! {

/// The outcome for one alignment point of two character sequences.
#[derive(Clone, Copy, Debug, PartialEq, Eq)]
pub enum Edit {
    /// The character is kept.
    Copy(char),
    /// The character stands on the right side only.
    Insert(char),
    /// The character stands on the left side only.
    Remove(char),
}

} // verus!
