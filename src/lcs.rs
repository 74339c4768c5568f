use vstd::prelude::*;

use std::collections::VecDeque;

use crate::same::Same;

verus! {

/// An ordered collection whose elements can be read by position.
pub trait Sequence<T> {
    /// The elements, in order.
    spec fn items(&self) -> Seq<T>;

    fn count(&self) -> (n: usize)
        ensures
            n == self.items().len(),
    ;

    fn at(&self, i: usize) -> (x: &T)
        requires
            i < self.items().len(),
        ensures
            *x == self.items()[i as int],
    ;
}

impl<T> Sequence<T> for Vec<T> {
    open spec fn items(&self) -> Seq<T> {
        self@
    }

    fn count(&self) -> (n: usize) {
        self.len()
    }

    fn at(&self, i: usize) -> (x: &T) {
        &self[i]
    }
}

impl<T> Sequence<T> for VecDeque<T> {
    open spec fn items(&self) -> Seq<T> {
        self@
    }

    fn count(&self) -> (n: usize) {
        self.len()
    }

    fn at(&self, i: usize) -> (x: &T) {
        &self[i]
    }
}

/// One point of an alignment between a left and a right sequence, by index.
#[derive(Clone, Copy, Debug, PartialEq, Eq)]
pub enum Step {
    /// The left element at the first index is aligned with the right element at the second.
    Both(usize, usize),
    /// The left element at this index has no partner.
    Left(usize),
    /// The right element at this index has no partner.
    Right(usize),
}

/// Length of the longest common subsequence, under `same`, of the first `i`
/// elements of `l` and the first `j` elements of `r`.
pub open spec fn table<T: Same>(l: Seq<T>, r: Seq<T>, i: nat, j: nat) -> nat
    decreases i + j,
{
    if i == 0 || j == 0 {
        0
    } else if l[i - 1].same_spec(&r[j - 1]) {
        table(l, r, (i - 1) as nat, (j - 1) as nat) + 1
    } else {
        let up = table(l, r, (i - 1) as nat, j);
        let left = table(l, r, i, (j - 1) as nat);
        if up >= left {
            up
        } else {
            left
        }
    }
}

/// The alignment of the first `i` elements of `l` with the first `j` of `r`,
/// read back from the table: identical elements are aligned; otherwise the
/// left element is dropped when that keeps a strictly longer common
/// subsequence, and the right element is dropped else.
pub open spec fn steps<T: Same>(l: Seq<T>, r: Seq<T>, i: nat, j: nat) -> Seq<Step>
    decreases i + j,
{
    if i == 0 && j == 0 {
        seq![]
    } else if i > 0 && j > 0 && l[i - 1].same_spec(&r[j - 1]) {
        steps(l, r, (i - 1) as nat, (j - 1) as nat).push(Step::Both((i - 1) as usize, (j - 1) as usize))
    } else if j == 0 || (i > 0 && table(l, r, (i - 1) as nat, j) > table(l, r, i, (j - 1) as nat)) {
        steps(l, r, (i - 1) as nat, j).push(Step::Left((i - 1) as usize))
    } else {
        steps(l, r, i, (j - 1) as nat).push(Step::Right((j - 1) as usize))
    }
}

/// The alignment of all of `l` with all of `r`.
pub open spec fn alignment<T: Same>(l: Seq<T>, r: Seq<T>) -> Seq<Step> {
    steps(l, r, l.len(), r.len())
}

/// The left elements that an alignment keeps, in order.
pub open spec fn keep_left<T>(st: Seq<Step>, l: Seq<T>) -> Seq<T>
    decreases st.len(),
{
    if st.len() == 0 {
        seq![]
    } else {
        let rest = keep_left(st.drop_last(), l);
        match st.last() {
            Step::Both(i, _) => rest.push(l[i as int]),
            Step::Left(i) => rest.push(l[i as int]),
            Step::Right(_) => rest,
        }
    }
}

/// The right elements that an alignment keeps, in order.
pub open spec fn keep_right<T>(st: Seq<Step>, r: Seq<T>) -> Seq<T>
    decreases st.len(),
{
    if st.len() == 0 {
        seq![]
    } else {
        let rest = keep_right(st.drop_last(), r);
        match st.last() {
            Step::Both(_, j) => rest.push(r[j as int]),
            Step::Left(_) => rest,
            Step::Right(j) => rest.push(r[j as int]),
        }
    }
}

/// The number of aligned pairs in `st`.
pub open spec fn pair_count(st: Seq<Step>) -> nat
    decreases st.len(),
{
    if st.len() == 0 {
        0
    } else {
        pair_count(st.drop_last()) + if st.last() is Both {
            1nat
        } else {
            0nat
        }
    }
}

/// Every step of `st` refers to an index inside `l` or `r`.
pub open spec fn in_bounds(st: Seq<Step>, n: nat, m: nat) -> bool {
    forall|k: int|
        0 <= k < st.len() ==> match #[trigger] st[k] {
            Step::Both(i, j) => i < n && j < m,
            Step::Left(i) => i < n,
            Step::Right(j) => j < m,
        }
}

/// Every aligned pair of `st` is the same entity under `same`.
pub open spec fn pairs_same<T: Same>(st: Seq<Step>, l: Seq<T>, r: Seq<T>) -> bool {
    forall|k: int|
        0 <= k < st.len() ==> (#[trigger] st[k] matches Step::Both(i, j) ==> l[i as int].same_spec(
            &r[j as int],
        ))
}

/// Where every step aligns two equal elements, both sides keep the same elements.
pub proof fn lemma_keep_equal_pairs<T>(st: Seq<Step>, l: Seq<T>, r: Seq<T>)
    requires
        forall|k: int|
            0 <= k < st.len() ==> (#[trigger] st[k] matches Step::Both(i, j) && l[i as int] == r[j as int]),
    ensures
        keep_left(st, l) == keep_right(st, r),
    decreases st.len(),
{
    if st.len() > 0 {
        assert forall|k: int| 0 <= k < st.len() - 1 implies #[trigger] st.drop_last()[k] == st[k] by {}
        lemma_keep_equal_pairs(st.drop_last(), l, r);
        assert(st[st.len() - 1] == st.last());
    }
}

proof fn lemma_table_bound<T: Same>(l: Seq<T>, r: Seq<T>, i: nat, j: nat)
    ensures
        table(l, r, i, j) <= i,
        table(l, r, i, j) <= j,
    decreases i + j,
{
    if i > 0 && j > 0 {
        lemma_table_bound(l, r, (i - 1) as nat, (j - 1) as nat);
        lemma_table_bound(l, r, (i - 1) as nat, j);
        lemma_table_bound(l, r, i, (j - 1) as nat);
    }
}

/// Walking an alignment prefix keeps exactly the prefixes of both sides, and
/// every index it holds is in bounds.
proof fn lemma_steps_keep<T: Same>(l: Seq<T>, r: Seq<T>, i: nat, j: nat)
    requires
        i <= l.len(),
        j <= r.len(),
        l.len() <= usize::MAX,
        r.len() <= usize::MAX,
    ensures
        keep_left(steps(l, r, i, j), l) == l.take(i as int),
        keep_right(steps(l, r, i, j), r) == r.take(j as int),
        in_bounds(steps(l, r, i, j), l.len(), r.len()),
        pairs_same(steps(l, r, i, j), l, r),
    decreases i + j,
{
    let st = steps(l, r, i, j);
    if i == 0 && j == 0 {
        assert(l.take(0) =~= seq![]);
        assert(r.take(0) =~= seq![]);
    } else {
        let (pi, pj): (nat, nat) = if i > 0 && j > 0 && l[i - 1].same_spec(&r[j - 1]) {
            ((i - 1) as nat, (j - 1) as nat)
        } else if j == 0 || (i > 0 && table(l, r, (i - 1) as nat, j) > table(l, r, i, (j - 1) as nat)) {
            ((i - 1) as nat, j)
        } else {
            (i, (j - 1) as nat)
        };
        lemma_steps_keep(l, r, pi, pj);
        assert(st.drop_last() == steps(l, r, pi, pj));
        assert forall|k: int| 0 <= k < st.len() - 1 implies #[trigger] st[k] == st.drop_last()[k] by {}
        assert(l.take(i as int) =~= keep_left(st, l));
        assert(r.take(j as int) =~= keep_right(st, r));
    }
}

proof fn lemma_steps_count<T: Same>(l: Seq<T>, r: Seq<T>, i: nat, j: nat)
    ensures
        pair_count(steps(l, r, i, j)) == table(l, r, i, j),
    decreases i + j,
{
    let st = steps(l, r, i, j);
    if i == 0 && j == 0 {
    } else if i > 0 && j > 0 && l[i - 1].same_spec(&r[j - 1]) {
        lemma_steps_count(l, r, (i - 1) as nat, (j - 1) as nat);
        assert(st.drop_last() == steps(l, r, (i - 1) as nat, (j - 1) as nat));
    } else if j == 0 || (i > 0 && table(l, r, (i - 1) as nat, j) > table(l, r, i, (j - 1) as nat)) {
        lemma_steps_count(l, r, (i - 1) as nat, j);
        assert(st.drop_last() == steps(l, r, (i - 1) as nat, j));
    } else {
        lemma_steps_count(l, r, i, (j - 1) as nat);
        assert(st.drop_last() == steps(l, r, i, (j - 1) as nat));
    }
}

/// `ps` pairs indices of `l` below `i` with indices of `r` below `j`,
/// increasing on both sides, each pair the same entity under `same`: a common
/// subsequence of the two prefixes.
pub open spec fn is_common<T: Same>(ps: Seq<(int, int)>, l: Seq<T>, r: Seq<T>, i: int, j: int) -> bool {
    &&& forall|k: int|
        0 <= k < ps.len() ==> {
            &&& 0 <= (#[trigger] ps[k]).0 < i
            &&& 0 <= ps[k].1 < j
            &&& l[ps[k].0].same_spec(&r[ps[k].1])
        }
    &&& forall|k1: int, k2: int|
        0 <= k1 < k2 < ps.len() ==> (#[trigger] ps[k1]).0 < (#[trigger] ps[k2]).0 && ps[k1].1 < ps[k2].1
}

proof fn lemma_table_is_longest<T: Same>(ps: Seq<(int, int)>, l: Seq<T>, r: Seq<T>, i: nat, j: nat)
    requires
        is_common(ps, l, r, i as int, j as int),
    ensures
        ps.len() <= table(l, r, i, j),
    decreases i + j,
{
    if ps.len() > 0 {
        let n = ps.len() - 1;
        let (a, b) = ps[n];
        let front = ps.drop_last();
        assert forall|k: int| 0 <= k < front.len() implies #[trigger] front[k] == ps[k] by {}
        if l[i - 1].same_spec(&r[j - 1]) {
            assert forall|k: int| 0 <= k < front.len() implies (#[trigger] front[k]).0 < a && front[k].1 < b by {
                assert(ps[k].0 < ps[n].0);
            }
            lemma_table_is_longest(front, l, r, (i - 1) as nat, (j - 1) as nat);
        } else if a < i - 1 {
            assert forall|k: int| 0 <= k < ps.len() implies (#[trigger] ps[k]).0 < i - 1 by {
                if k < n {
                    assert(ps[k].0 < ps[n].0);
                }
            }
            lemma_table_is_longest(ps, l, r, (i - 1) as nat, j);
        } else {
            assert forall|k: int| 0 <= k < ps.len() implies (#[trigger] ps[k]).1 < j - 1 by {
                if k < n {
                    assert(ps[k].1 < ps[n].1);
                }
            }
            lemma_table_is_longest(ps, l, r, i, (j - 1) as nat);
        }
    }
}

/// The alignment is a longest common subsequence: no common subsequence of
/// `l` and `r` under `same` pairs more elements than it does.
pub proof fn lemma_alignment_is_longest<T: Same>(l: Seq<T>, r: Seq<T>, ps: Seq<(int, int)>)
    requires
        is_common(ps, l, r, l.len() as int, r.len() as int),
    ensures
        ps.len() <= pair_count(alignment(l, r)),
{
    lemma_table_is_longest(ps, l, r, l.len(), r.len());
    lemma_steps_count(l, r, l.len(), r.len());
}

/// With `l` aligned against itself, every step pairs an element with itself.
proof fn lemma_steps_diagonal<T: Same>(l: Seq<T>, i: nat)
    requires
        i <= l.len(),
    ensures
        steps(l, l, i, i).len() == i,
        forall|k: int| 0 <= k < i ==> #[trigger] steps(l, l, i, i)[k] == Step::Both(k as usize, k as usize),
    decreases i,
{
    if i > 0 {
        l[i - 1].lemma_same_reflexive();
        lemma_steps_diagonal(l, (i - 1) as nat);
    }
}

/// Reading back the alignment of two sequences gives back each of them:
/// keeping the aligned and left-only elements yields `l`, and keeping the
/// aligned and right-only elements yields `r`.
pub proof fn lemma_alignment_reconstructs<T: Same>(l: Seq<T>, r: Seq<T>)
    requires
        l.len() <= usize::MAX,
        r.len() <= usize::MAX,
    ensures
        keep_left(alignment(l, r), l) == l,
        keep_right(alignment(l, r), r) == r,
        in_bounds(alignment(l, r), l.len(), r.len()),
        pairs_same(alignment(l, r), l, r),
{
    lemma_steps_keep(l, r, l.len(), r.len());
    assert(l.take(l.len() as int) =~= l);
    assert(r.take(r.len() as int) =~= r);
}

/// A sequence aligned against itself pairs every element with itself.
pub proof fn lemma_alignment_diagonal<T: Same>(l: Seq<T>)
    ensures
        alignment(l, l).len() == l.len(),
        forall|k: int| 0 <= k < l.len() ==> #[trigger] alignment(l, l)[k] == Step::Both(k as usize, k as usize),
{
    lemma_steps_diagonal(l, l.len());
}

/// Fills the table of common-subsequence lengths: entry `[i][j]` is
/// `table(l, r, i, j)`.
fn fill_table<T: Same, S: Sequence<T>>(l: &S, r: &S) -> (t: Vec<Vec<usize>>)
    ensures
        t.len() == l.items().len() + 1,
        forall|i: int|
            0 <= i <= l.items().len() ==> #[trigger] t[i].len() == r.items().len() + 1,
        forall|i: int, j: int|
            0 <= i <= l.items().len() && 0 <= j <= r.items().len() ==> #[trigger] t[i][j] == table(
                l.items(),
                r.items(),
                i as nat,
                j as nat,
            ),
{
    let n = l.count();
    let m = r.count();
    let mut first: Vec<usize> = Vec::new();
    first.push(0);
    let mut j: usize = 0;
    while j < m
        invariant
            j <= m,
            first.len() == j + 1,
            forall|k: int| 0 <= k < first.len() ==> #[trigger] first[k] == 0,
        decreases m - j,
    {
        first.push(0);
        j = j + 1;
    }
    proof {
        assert forall|k: int| 0 <= k <= m implies #[trigger] first[k] == table(l.items(), r.items(), 0, k as nat) by {}
    }
    let mut t: Vec<Vec<usize>> = Vec::new();
    t.push(first);
    let mut i: usize = 0;
    while i < n
        invariant
            i <= n,
            n == l.items().len(),
            m == r.items().len(),
            t.len() == i + 1,
            forall|a: int| 0 <= a <= i ==> #[trigger] t[a].len() == m + 1,
            forall|a: int, b: int|
                0 <= a <= i && 0 <= b <= m ==> #[trigger] t[a][b] == table(
                    l.items(),
                    r.items(),
                    a as nat,
                    b as nat,
                ),
        decreases n - i,
    {
        let mut row: Vec<usize> = Vec::new();
        row.push(0);
        let mut j: usize = 0;
        while j < m
            invariant
                i < n,
                j <= m,
                n == l.items().len(),
                m == r.items().len(),
                t.len() == i + 1,
                t[i as int].len() == m + 1,
                row.len() == j + 1,
                forall|b: int| 0 <= b <= m ==> #[trigger] t[i as int][b] == table(l.items(), r.items(), i as nat, b as nat),
                forall|b: int|
                    0 <= b <= j ==> #[trigger] row[b] == table(l.items(), r.items(), (i + 1) as nat, b as nat),
            decreases m - j,
        {
            proof {
                lemma_table_bound(l.items(), r.items(), i as nat, j as nat);
            }
            let v: usize = if l.at(i).same(r.at(j)) {
                t[i][j] + 1
            } else {
                let up = t[i][j + 1];
                let left = row[j];
                if up >= left {
                    up
                } else {
                    left
                }
            };
            row.push(v);
            j = j + 1;
        }
        t.push(row);
        i = i + 1;
    }
    t
}

/// Aligns `l` with `r` along a longest common subsequence under `same`.
pub fn lcs<T: Same, S: Sequence<T>>(l: &S, r: &S) -> (st: Vec<Step>)
    ensures
        st@ == alignment(l.items(), r.items()),
        in_bounds(st@, l.items().len(), r.items().len()),
        pairs_same(st@, l.items(), r.items()),
        keep_left(st@, l.items()) == l.items(),
        keep_right(st@, r.items()) == r.items(),
{
    let t = fill_table(l, r);
    let mut i: usize = l.count();
    let mut j: usize = r.count();
    proof {
        lemma_alignment_reconstructs(l.items(), r.items());
    }
    let mut back: Vec<Step> = Vec::new();
    while i > 0 || j > 0
        invariant
            i <= l.items().len(),
            j <= r.items().len(),
            t.len() == l.items().len() + 1,
            forall|a: int| 0 <= a <= l.items().len() ==> #[trigger] t[a].len() == r.items().len() + 1,
            forall|a: int, b: int|
                0 <= a <= l.items().len() && 0 <= b <= r.items().len() ==> #[trigger] t[a][b] == table(
                    l.items(),
                    r.items(),
                    a as nat,
                    b as nat,
                ),
            alignment(l.items(), r.items()) == steps(l.items(), r.items(), i as nat, j as nat) + back@.reverse(),
        decreases i + j,
    {
        let ghost prev = back@;
        proof {
            if i > 0 {
                assert(t[i - 1].len() == r.items().len() + 1);
            }
            assert(t[i as int].len() == r.items().len() + 1);
        }
        let s: Step;
        if i > 0 && j > 0 && l.at(i - 1).same(r.at(j - 1)) {
            s = Step::Both(i - 1, j - 1);
            i = i - 1;
            j = j - 1;
        } else if j == 0 || (i > 0 && t[i - 1][j] > t[i][j - 1]) {
            s = Step::Left(i - 1);
            i = i - 1;
        } else {
            s = Step::Right(j - 1);
            j = j - 1;
        }
        back.push(s);
        proof {
            assert(back@.reverse() =~= seq![s] + prev.reverse());
            assert(steps(l.items(), r.items(), i as nat, j as nat) + back@.reverse() =~= steps(l.items(), r.items(), i as nat, j as nat).push(s) + prev.reverse());
        }
    }
    let mut st: Vec<Step> = Vec::new();
    let mut k: usize = back.len();
    while k > 0
        invariant
            k <= back.len(),
            st@ == back@.subrange(k as int, back.len() as int).reverse(),
        decreases k,
    {
        k = k - 1;
        st.push(back[k]);
        proof {
            assert(back@.subrange(k as int, back.len() as int).reverse() =~= back@.subrange(k + 1, back.len() as int).reverse().push(back@[k as int]));
        }
    }
    proof {
        assert(back@.subrange(0, back.len() as int) =~= back@);
        assert(steps(l.items(), r.items(), 0, 0) + back@.reverse() =~= back@.reverse());
    }
    st
}

} // verus!
