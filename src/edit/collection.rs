//! The outcome for one alignment point of two sequences has the same four
//! forms as the outcome for one key of two maps.
pub use super::map::Edit;
