use vstd::prelude::*;

use crate::edit::{self, enm};
use crate::Diffable;

verus! {

/// `e` is the outcome of diffing `l` against `r`: `Copy` of `l` when they are
/// unchanged, otherwise `Change` holding exactly how `l` changed into `r`.
pub open spec fn field_follows<'a, T: Diffable<'a>>(e: edit::Edit<'a, T, T::Diff>, l: T, r: T) -> bool {
    if l.unchanged(&r) {
        e matches edit::Edit::Copy(x) && *x == l
    } else {
        e matches edit::Edit::Change(c) && l.changed_to(&r, c)
    }
}

/// Diffs two pairs field by field: the pair is unchanged only when both
/// fields are, and otherwise the change holds each field's own outcome.
pub fn diff_pairs<'a, A: Diffable<'a>, B: Diffable<'a>>(l: &'a (A, B), r: &'a (A, B)) -> (res: edit::Edit<
    'a,
    (A, B),
    (edit::Edit<'a, A, A::Diff>, edit::Edit<'a, B, B::Diff>),
>)
    ensures
        res is Copy <==> l.0.unchanged(&r.0) && l.1.unchanged(&r.1),
        res matches edit::Edit::Copy(v) ==> v == l,
        res matches edit::Edit::Change(d) ==> field_follows(d.0, l.0, r.0) && field_follows(d.1, l.1, r.1),
{
    let first = l.0.diff(&r.0);
    let second = l.1.diff(&r.1);
    if first.is_copy() && second.is_copy() {
        edit::Edit::Copy(l)
    } else {
        edit::Edit::Change((first, second))
    }
}

impl<'a, A: Diffable<'a>, B: Diffable<'a>> Diffable<'a> for (A, B) {
    type Diff = (edit::Edit<'a, A, A::Diff>, edit::Edit<'a, B, B::Diff>);

    open spec fn unchanged(&self, other: &Self) -> bool {
        self.0.unchanged(&other.0) && self.1.unchanged(&other.1)
    }

    open spec fn changed_to(&self, other: &Self, d: Self::Diff) -> bool {
        field_follows(d.0, self.0, other.0) && field_follows(d.1, self.1, other.1)
    }

    proof fn lemma_unchanged_reflexive(&self) {
        self.0.lemma_unchanged_reflexive();
        self.1.lemma_unchanged_reflexive();
    }

    fn diff(&'a self, other: &'a Self) -> (r: edit::Edit<'a, Self, Self::Diff>) {
        diff_pairs(self, other)
    }
}

/// Two optional values are unchanged when both are `None`, or both are `Some`
/// with unchanged payloads.
pub open spec fn option_unchanged<'a, T: Diffable<'a>>(l: Option<T>, r: Option<T>) -> bool {
    match (l, r) {
        (None, None) => true,
        (Some(a), Some(b)) => a.unchanged(&b),
        _ => false,
    }
}

/// `d` is the change from `l` to `r` by the union rule: `VariantChanged` with
/// both whole values when one is `Some` and the other `None`, and
/// `AssociatedChanged` with the payloads' own change when both are `Some`.
pub open spec fn option_changed_to<'a, T: Diffable<'a>>(
    l: &'a Option<T>,
    r: &'a Option<T>,
    d: enm::Edit<'a, Option<T>, T::Diff>,
) -> bool {
    match d {
        enm::Edit::VariantChanged(a, b) => (l is Some != r is Some) && a == l && b == r,
        enm::Edit::AssociatedChanged(p) => match (*l, *r) {
            (Some(a), Some(b)) => a.changed_to(&b, p),
            _ => false,
        },
    }
}

/// Diffs two optional values by the union rule: the same variant diffs the
/// payload, different variants are reported whole.
pub fn diff_options<'a, T: Diffable<'a>>(l: &'a Option<T>, r: &'a Option<T>) -> (res: edit::Edit<
    'a,
    Option<T>,
    enm::Edit<'a, Option<T>, T::Diff>,
>)
    ensures
        res is Copy <==> option_unchanged(*l, *r),
        res matches edit::Edit::Copy(v) ==> v == l,
        res matches edit::Edit::Change(d) ==> option_changed_to(l, r, d),
        res matches edit::Edit::Change(enm::Edit::VariantChanged(a, b)) <==> (l is Some != r is Some),
{
    match (l, r) {
        (Some(a), Some(b)) => match a.diff(b) {
            edit::Edit::Copy(_) => edit::Edit::Copy(l),
            edit::Edit::Change(d) => edit::Edit::Change(enm::Edit::AssociatedChanged(d)),
        },
        (None, None) => edit::Edit::Copy(l),
        _ => edit::Edit::Change(enm::Edit::VariantChanged(l, r)),
    }
}

impl<'a, T: Diffable<'a>> Diffable<'a> for Option<T> {
    type Diff = enm::Edit<'a, Option<T>, T::Diff>;

    open spec fn unchanged(&self, other: &Self) -> bool {
        option_unchanged(*self, *other)
    }

    open spec fn changed_to(&self, other: &Self, d: Self::Diff) -> bool {
        option_changed_to(self, other, d)
    }

    proof fn lemma_unchanged_reflexive(&self) {
        if let Some(a) = self {
            a.lemma_unchanged_reflexive();
        }
    }

    fn diff(&'a self, other: &'a Self) -> (r: edit::Edit<'a, Self, Self::Diff>)
        ensures
            r matches edit::Edit::Change(enm::Edit::VariantChanged(a, b)) <==> (self is Some != other is Some),
    {
        diff_options(self, other)
    }
}

/// Two results are unchanged when both hold the same variant with unchanged
/// payloads.
pub open spec fn result_unchanged<'a, A: Diffable<'a>, B: Diffable<'a>>(
    l: Result<A, B>,
    r: Result<A, B>,
) -> bool {
    match (l, r) {
        (Ok(a), Ok(b)) => a.unchanged(&b),
        (Err(a), Err(b)) => a.unchanged(&b),
        _ => false,
    }
}

/// `d` is the change from `l` to `r` by the union rule: `VariantChanged` with
/// both whole values when their variants differ, and `AssociatedChanged` with
/// the payloads' own change, under the variant both hold, when they agree.
pub open spec fn result_changed_to<'a, A: Diffable<'a>, B: Diffable<'a>>(
    l: &'a Result<A, B>,
    r: &'a Result<A, B>,
    d: enm::Edit<'a, Result<A, B>, enm::EditedResult<A::Diff, B::Diff>>,
) -> bool {
    match d {
        enm::Edit::VariantChanged(a, b) => (l is Ok != r is Ok) && a == l && b == r,
        enm::Edit::AssociatedChanged(p) => match (*l, *r, p) {
            (Ok(a), Ok(b), enm::EditedResult::Success(c)) => a.changed_to(&b, c),
            (Err(a), Err(b), enm::EditedResult::Failure(c)) => a.changed_to(&b, c),
            _ => false,
        },
    }
}

/// Diffs two results by the union rule: the same variant diffs the payload,
/// different variants are reported whole.
pub fn diff_results<'a, A: Diffable<'a>, B: Diffable<'a>>(l: &'a Result<A, B>, r: &'a Result<A, B>) -> (res: edit::Edit<
    'a,
    Result<A, B>,
    enm::Edit<'a, Result<A, B>, enm::EditedResult<A::Diff, B::Diff>>,
>)
    ensures
        res is Copy <==> result_unchanged(*l, *r),
        res matches edit::Edit::Copy(v) ==> v == l,
        res matches edit::Edit::Change(d) ==> result_changed_to(l, r, d),
        res matches edit::Edit::Change(enm::Edit::VariantChanged(a, b)) <==> (l is Ok != r is Ok),
{
    match (l, r) {
        (Ok(a), Ok(b)) => match a.diff(b) {
            edit::Edit::Copy(_) => edit::Edit::Copy(l),
            edit::Edit::Change(d) => edit::Edit::Change(enm::Edit::AssociatedChanged(enm::EditedResult::Success(d))),
        },
        (Err(a), Err(b)) => match a.diff(b) {
            edit::Edit::Copy(_) => edit::Edit::Copy(l),
            edit::Edit::Change(d) => edit::Edit::Change(enm::Edit::AssociatedChanged(enm::EditedResult::Failure(d))),
        },
        _ => edit::Edit::Change(enm::Edit::VariantChanged(l, r)),
    }
}

impl<'a, A: Diffable<'a>, B: Diffable<'a>> Diffable<'a> for Result<A, B> {
    type Diff = enm::Edit<'a, Result<A, B>, enm::EditedResult<A::Diff, B::Diff>>;

    open spec fn unchanged(&self, other: &Self) -> bool {
        result_unchanged(*self, *other)
    }

    open spec fn changed_to(&self, other: &Self, d: Self::Diff) -> bool {
        result_changed_to(self, other, d)
    }

    proof fn lemma_unchanged_reflexive(&self) {
        match self {
            Ok(a) => a.lemma_unchanged_reflexive(),
            Err(a) => a.lemma_unchanged_reflexive(),
        }
    }

    fn diff(&'a self, other: &'a Self) -> (r: edit::Edit<'a, Self, Self::Diff>)
        ensures
            r matches edit::Edit::Change(enm::Edit::VariantChanged(a, b)) <==> (self is Ok != other is Ok),
    {
        diff_results(self, other)
    }
}

} // verus!
