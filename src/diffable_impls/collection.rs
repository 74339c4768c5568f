use vstd::prelude::*;

use crate::edit::{self, collection};
use std::collections::VecDeque;

use crate::lcs::{self, Sequence, Step};
use crate::{Diffable, Same};

verus! {

/// `s` is the script that the alignment `st` of `l` with `r` gives: one entry
/// per step, aligned pairs as `Copy` of the left element when unchanged and
/// as `Change` holding the pair's own diff otherwise, unpaired elements as
/// `Remove` or `Insert`.
pub open spec fn script_follows<'a, T: Same + Diffable<'a>>(
    s: Seq<collection::Edit<'a, T, T::Diff>>,
    st: Seq<Step>,
    l: Seq<T>,
    r: Seq<T>,
) -> bool {
    &&& s.len() == st.len()
    &&& forall|k: int|
        0 <= k < s.len() ==> match #[trigger] st[k] {
            Step::Both(i, j) => if l[i as int].unchanged(&r[j as int]) {
                s[k] matches collection::Edit::Copy(x) && *x == l[i as int]
            } else {
                s[k] matches collection::Edit::Change(c) && l[i as int].changed_to(&r[j as int], c)
            },
            Step::Left(i) => s[k] matches collection::Edit::Remove(x) && *x == l[i as int],
            Step::Right(j) => s[k] matches collection::Edit::Insert(x) && *x == r[j as int],
        }
}

/// Every step of `st` pairs two elements that are unchanged against each other.
pub open spec fn all_unchanged<'a, T: Same + Diffable<'a>>(st: Seq<Step>, l: Seq<T>, r: Seq<T>) -> bool {
    forall|k: int|
        0 <= k < st.len() ==> (#[trigger] st[k] matches Step::Both(i, j) && l[i as int].unchanged(
            &r[j as int],
        ))
}

/// Two sequences are unchanged when their alignment pairs every element with
/// one that is unchanged against it.
pub open spec fn sequence_unchanged<'a, T: Same + Diffable<'a>>(l: Seq<T>, r: Seq<T>) -> bool {
    all_unchanged(lcs::alignment(l, r), l, r)
}

/// The left sequence read back from a script: `Copy` and `Remove` entries
/// give the element they hold, `Change` entries the left element of their
/// step, `Insert` entries nothing.
pub open spec fn script_left<'a, T: Diffable<'a>>(
    s: Seq<collection::Edit<'a, T, T::Diff>>,
    st: Seq<Step>,
    l: Seq<T>,
) -> Seq<T>
    decreases s.len(),
{
    if s.len() == 0 {
        seq![]
    } else {
        let rest = script_left(s.drop_last(), st, l);
        match s.last() {
            collection::Edit::Copy(x) => rest.push(*x),
            collection::Edit::Remove(x) => rest.push(*x),
            collection::Edit::Change(_) => match st[s.len() - 1] {
                Step::Both(i, _) => rest.push(l[i as int]),
                _ => rest,
            },
            collection::Edit::Insert(_) => rest,
        }
    }
}

/// The right sequence read back from a script: `Insert` entries give the
/// element they hold, `Copy` and `Change` entries the right element of their
/// step, `Remove` entries nothing.
pub open spec fn script_right<'a, T: Diffable<'a>>(
    s: Seq<collection::Edit<'a, T, T::Diff>>,
    st: Seq<Step>,
    r: Seq<T>,
) -> Seq<T>
    decreases s.len(),
{
    if s.len() == 0 {
        seq![]
    } else {
        let rest = script_right(s.drop_last(), st, r);
        match s.last() {
            collection::Edit::Insert(x) => rest.push(*x),
            collection::Edit::Remove(_) => rest,
            _ => match st[s.len() - 1] {
                Step::Both(_, j) => rest.push(r[j as int]),
                _ => rest,
            },
        }
    }
}

proof fn lemma_script_keeps<'a, T: Same + Diffable<'a>>(
    s: Seq<collection::Edit<'a, T, T::Diff>>,
    st: Seq<Step>,
    l: Seq<T>,
    r: Seq<T>,
)
    requires
        script_follows(s, st, l, r),
    ensures
        script_left(s, st, l) == lcs::keep_left(st, l),
        script_right(s, st, r) == lcs::keep_right(st, r),
    decreases s.len(),
{
    if s.len() > 0 {
        let n = s.len() - 1;
        assert forall|k: int| 0 <= k < n implies #[trigger] st.drop_last()[k] == st[k] && s.drop_last()[k] == s[k] by {}
        lemma_script_keeps(s.drop_last(), st.drop_last(), l, r);
        lemma_script_prefix(s.drop_last(), st, l, r);
        assert(st[n] == st.last());
    }
}

proof fn lemma_script_prefix<'a, T: Diffable<'a>>(
    s: Seq<collection::Edit<'a, T, T::Diff>>,
    st: Seq<Step>,
    l: Seq<T>,
    r: Seq<T>,
)
    requires
        s.len() < st.len(),
    ensures
        script_left(s, st, l) == script_left(s, st.take(s.len() as int), l),
        script_right(s, st, r) == script_right(s, st.take(s.len() as int), r),
    decreases s.len(),
{
    if s.len() > 0 {
        lemma_script_prefix(s.drop_last(), st, l, r);
        lemma_script_prefix(s.drop_last(), st.take(s.len() as int), l, r);
        assert(st.take(s.len() as int).take(s.len() - 1) =~= st.take(s.len() - 1));
        assert(st.take(s.len() as int)[s.len() - 1] == st[s.len() - 1]);
    }
}

/// Reading the script of a sequence diff back gives both sequences: keeping
/// the `Copy`, `Change` and `Remove` entries by their left elements yields
/// `l`, and keeping the `Copy`, `Change` and `Insert` entries by their right
/// elements yields `r`.
pub proof fn lemma_script_reconstructs<'a, T: Same + Diffable<'a>>(
    l: Seq<T>,
    r: Seq<T>,
    s: Seq<collection::Edit<'a, T, T::Diff>>,
)
    requires
        l.len() <= usize::MAX,
        r.len() <= usize::MAX,
        script_follows(s, lcs::alignment(l, r), l, r),
    ensures
        script_left(s, lcs::alignment(l, r), l) == l,
        script_right(s, lcs::alignment(l, r), r) == r,
{
    lcs::lemma_alignment_reconstructs(l, r);
    lemma_script_keeps(s, lcs::alignment(l, r), l, r);
}

/// The left sequence read from the script alone, for elements whose change
/// holds the two values: `Copy` and `Remove` give their element, `Change`
/// its old value, `Insert` nothing.
pub open spec fn leaf_script_left<'a, T: Diffable<'a, Diff = (&'a T, &'a T)>>(
    s: Seq<collection::Edit<'a, T, (&'a T, &'a T)>>,
) -> Seq<T>
    decreases s.len(),
{
    if s.len() == 0 {
        seq![]
    } else {
        let rest = leaf_script_left(s.drop_last());
        match s.last() {
            collection::Edit::Copy(x) => rest.push(*x),
            collection::Edit::Remove(x) => rest.push(*x),
            collection::Edit::Change(d) => rest.push(*d.0),
            collection::Edit::Insert(_) => rest,
        }
    }
}

/// The right sequence read from the script alone, for elements whose change
/// holds the two values: `Copy` and `Insert` give their element, `Change`
/// its new value, `Remove` nothing.
pub open spec fn leaf_script_right<'a, T: Diffable<'a, Diff = (&'a T, &'a T)>>(
    s: Seq<collection::Edit<'a, T, (&'a T, &'a T)>>,
) -> Seq<T>
    decreases s.len(),
{
    if s.len() == 0 {
        seq![]
    } else {
        let rest = leaf_script_right(s.drop_last());
        match s.last() {
            collection::Edit::Copy(x) => rest.push(*x),
            collection::Edit::Insert(x) => rest.push(*x),
            collection::Edit::Change(d) => rest.push(*d.1),
            collection::Edit::Remove(_) => rest,
        }
    }
}

proof fn lemma_leaf_script_reads<'a, T: Same + Diffable<'a, Diff = (&'a T, &'a T)>>(
    s: Seq<collection::Edit<'a, T, (&'a T, &'a T)>>,
    st: Seq<Step>,
    l: Seq<T>,
    r: Seq<T>,
)
    requires
        s.len() <= st.len(),
        forall|k: int| 0 <= k < s.len() ==> script_follows(seq![s[k]], seq![st[k]], l, r),
        forall|x: T, y: T, d: (&'a T, &'a T)| #[trigger] x.changed_to(&y, d) ==> *d.0 == x && *d.1 == y,
        forall|x: T, y: T| #[trigger] x.unchanged(&y) ==> x == y,
    ensures
        leaf_script_left(s) == script_left(s, st, l),
        leaf_script_right(s) == script_right(s, st, r),
    decreases s.len(),
{
    if s.len() > 0 {
        let n = s.len() - 1;
        assert forall|k: int| 0 <= k < n implies script_follows(seq![s.drop_last()[k]], seq![st[k]], l, r) by {
            assert(s.drop_last()[k] == s[k]);
        }
        lemma_leaf_script_reads(s.drop_last(), st, l, r);
        assert(script_follows(seq![s[n]], seq![st[n]], l, r));
        assert(seq![st[n]][0] == st[n]);
        assert(seq![s[n]][0] == s[n]);
        assert(s.last() == s[n]);
    }
}

/// For elements whose change holds the old and the new value (the scalar
/// leaves), the script of a sequence diff alone gives back both sequences:
/// keeping `Copy`, `Remove` and the old side of `Change` yields `l`, and
/// keeping `Copy`, `Insert` and the new side of `Change` yields `r`.
pub proof fn lemma_leaf_script_reconstructs<'a, T: Same + Diffable<'a, Diff = (&'a T, &'a T)>>(
    l: Seq<T>,
    r: Seq<T>,
    s: Seq<collection::Edit<'a, T, (&'a T, &'a T)>>,
)
    requires
        l.len() <= usize::MAX,
        r.len() <= usize::MAX,
        script_follows(s, lcs::alignment(l, r), l, r),
        forall|x: T, y: T, d: (&'a T, &'a T)| #[trigger] x.changed_to(&y, d) ==> *d.0 == x && *d.1 == y,
        forall|x: T, y: T| #[trigger] x.unchanged(&y) ==> x == y,
    ensures
        leaf_script_left(s) == l,
        leaf_script_right(s) == r,
{
    let st = lcs::alignment(l, r);
    assert forall|k: int| 0 <= k < s.len() implies script_follows(seq![s[k]], seq![st[k]], l, r) by {
        assert(script_follows(s, st, l, r));
        assert(seq![st[k]][0] == st[k]);
        assert(seq![s[k]][0] == s[k]);
    }
    lemma_leaf_script_reads(s, st, l, r);
    lemma_script_reconstructs(l, r, s);
}

/// Diffs two sequences: aligns them along a longest common subsequence under
/// `same`, then diffs each aligned pair in full.
pub fn diff_sequences<'a, T: Same + Diffable<'a>, S: Sequence<T>>(l: &'a S, r: &'a S) -> (res: edit::Edit<
    'a,
    S,
    Vec<collection::Edit<'a, T, T::Diff>>,
>)
    ensures
        res is Copy <==> sequence_unchanged(l.items(), r.items()),
        res matches edit::Edit::Copy(v) ==> v == l,
        res matches edit::Edit::Change(s) ==> script_follows(s@, lcs::alignment(l.items(), r.items()), l.items(), r.items()),
{
    let st = lcs::lcs(l, r);
    let mut s: Vec<collection::Edit<'a, T, T::Diff>> = Vec::new();
    let mut all_copy = true;
    let mut k: usize = 0;
    while k < st.len()
        invariant
            k <= st.len(),
            st@ == lcs::alignment(l.items(), r.items()),
            lcs::in_bounds(st@, l.items().len(), r.items().len()),
            s.len() == k,
            script_follows(s@, st@.take(k as int), l.items(), r.items()),
            all_copy <==> all_unchanged(st@.take(k as int), l.items(), r.items()),
        decreases st.len() - k,
    {
        let e = match st[k] {
            Step::Both(i, j) => {
                match l.at(i).diff(r.at(j)) {
                    edit::Edit::Copy(x) => collection::Edit::Copy(x),
                    edit::Edit::Change(d) => {
                        all_copy = false;
                        collection::Edit::Change(d)
                    },
                }
            },
            Step::Left(i) => {
                all_copy = false;
                collection::Edit::Remove(l.at(i))
            },
            Step::Right(j) => {
                all_copy = false;
                collection::Edit::Insert(r.at(j))
            },
        };
        let ghost prev = st@.take(k as int);
        s.push(e);
        k = k + 1;
        proof {
            assert(st@.take(k as int) =~= prev.push(st@[k - 1]));
            if all_copy {
                assert forall|q: int| 0 <= q < k implies (#[trigger] st@.take(k as int)[q] matches Step::Both(i, j) && l.items()[i as int].unchanged(&r.items()[j as int])) by {
                    if q < k - 1 {
                        assert(prev[q] == st@.take(k as int)[q]);
                    }
                }
            } else {
                assert(!all_unchanged(st@.take(k as int), l.items(), r.items())) by {
                    if all_unchanged(prev, l.items(), r.items()) {
                        assert(st@.take(k as int)[k - 1] == st@[k - 1]);
                    } else {
                        let q = choose|q: int| 0 <= q < prev.len() && !(#[trigger] prev[q] matches Step::Both(i, j) && l.items()[i as int].unchanged(&r.items()[j as int]));
                        assert(st@.take(k as int)[q] == prev[q]);
                    }
                }
            }
            assert(st@.take(k as int).drop_last() =~= st@.take(k - 1));
            assert forall|q: int| 0 <= q < k implies #[trigger] st@.take(k as int)[q] == st@[q] by {}
        }
    }
    proof {
        assert(st@.take(k as int) =~= st@);
    }
    if all_copy {
        edit::Edit::Copy(l)
    } else {
        edit::Edit::Change(s)
    }
}

impl<'a, T: Same + Diffable<'a>> Diffable<'a> for Vec<T> {
    type Diff = Vec<collection::Edit<'a, T, T::Diff>>;

    open spec fn unchanged(&self, other: &Self) -> bool {
        sequence_unchanged(self@, other@)
    }

    open spec fn changed_to(&self, other: &Self, d: Self::Diff) -> bool {
        script_follows(d@, lcs::alignment(self@, other@), self@, other@)
    }

    proof fn lemma_unchanged_reflexive(&self) {
        lcs::lemma_alignment_diagonal(self@);
        assert forall|k: int| 0 <= k < self@.len() implies self@[k].unchanged(&self@[k]) by {
            self@[k].lemma_unchanged_reflexive();
        }
    }

    fn diff(&'a self, other: &'a Self) -> (r: edit::Edit<'a, Self, Self::Diff>) {
        diff_sequences(self, other)
    }
}

impl<'a, T: Same + Diffable<'a>> Diffable<'a> for VecDeque<T> {
    type Diff = Vec<collection::Edit<'a, T, T::Diff>>;

    open spec fn unchanged(&self, other: &Self) -> bool {
        sequence_unchanged(self@, other@)
    }

    open spec fn changed_to(&self, other: &Self, d: Self::Diff) -> bool {
        script_follows(d@, lcs::alignment(self@, other@), self@, other@)
    }

    proof fn lemma_unchanged_reflexive(&self) {
        lcs::lemma_alignment_diagonal(self@);
        assert forall|k: int| 0 <= k < self@.len() implies self@[k].unchanged(&self@[k]) by {
            self@[k].lemma_unchanged_reflexive();
        }
    }

    fn diff(&'a self, other: &'a Self) -> (r: edit::Edit<'a, Self, Self::Diff>) {
        diff_sequences(self, other)
    }
}

} // verus!
