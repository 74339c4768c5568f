use vstd::prelude::*;

use crate::edit::{self, string};
use crate::lcs::{self, Step};
use crate::Diffable;

verus! {

/// `s` is the character script that the alignment `st` of `l` with `r`
/// gives: aligned characters as `Copy`, unpaired ones as `Remove` or `Insert`.
pub open spec fn char_script_follows(s: Seq<string::Edit>, st: Seq<Step>, l: Seq<char>, r: Seq<char>) -> bool {
    &&& s.len() == st.len()
    &&& forall|k: int|
        0 <= k < s.len() ==> match #[trigger] st[k] {
            Step::Both(i, _) => s[k] == string::Edit::Copy(l[i as int]),
            Step::Left(i) => s[k] == string::Edit::Remove(l[i as int]),
            Step::Right(j) => s[k] == string::Edit::Insert(r[j as int]),
        }
}

/// The left string read from a character script: `Copy` and `Remove` give
/// their character, `Insert` nothing.
pub open spec fn char_script_left(s: Seq<string::Edit>) -> Seq<char>
    decreases s.len(),
{
    if s.len() == 0 {
        seq![]
    } else {
        let rest = char_script_left(s.drop_last());
        match s.last() {
            string::Edit::Copy(c) => rest.push(c),
            string::Edit::Remove(c) => rest.push(c),
            string::Edit::Insert(_) => rest,
        }
    }
}

/// The right string read from a character script: `Copy` and `Insert` give
/// their character, `Remove` nothing.
pub open spec fn char_script_right(s: Seq<string::Edit>) -> Seq<char>
    decreases s.len(),
{
    if s.len() == 0 {
        seq![]
    } else {
        let rest = char_script_right(s.drop_last());
        match s.last() {
            string::Edit::Copy(c) => rest.push(c),
            string::Edit::Insert(c) => rest.push(c),
            string::Edit::Remove(_) => rest,
        }
    }
}

proof fn lemma_char_script_reads(s: Seq<string::Edit>, st: Seq<Step>, l: Seq<char>, r: Seq<char>)
    requires
        char_script_follows(s, st, l, r),
        lcs::pairs_same(st, l, r),
    ensures
        char_script_left(s) == lcs::keep_left(st, l),
        char_script_right(s) == lcs::keep_right(st, r),
    decreases s.len(),
{
    if s.len() > 0 {
        let n = s.len() - 1;
        assert forall|k: int| 0 <= k < n implies #[trigger] st.drop_last()[k] == st[k] && s.drop_last()[k] == s[k] by {}
        lemma_char_script_reads(s.drop_last(), st.drop_last(), l, r);
        assert(st[n] == st.last());
        assert(s[n] == s.last());
    }
}

/// Reading the script of a string diff gives back both strings: keeping
/// `Copy` and `Remove` characters yields `l`, keeping `Copy` and `Insert`
/// characters yields `r`.
pub proof fn lemma_char_script_reconstructs(l: Seq<char>, r: Seq<char>, s: Seq<string::Edit>)
    requires
        l.len() <= usize::MAX,
        r.len() <= usize::MAX,
        char_script_follows(s, lcs::alignment(l, r), l, r),
    ensures
        char_script_left(s) == l,
        char_script_right(s) == r,
{
    lcs::lemma_alignment_reconstructs(l, r);
    lemma_char_script_reads(s, lcs::alignment(l, r), l, r);
}

/// The characters of `s`, in order.
fn chars_of(s: &String) -> (v: Vec<char>)
    ensures
        v@ == s@,
{
    let mut v: Vec<char> = Vec::new();
    for c in it: s.as_str().chars()
        invariant
            it.seq() == s@,
            v.len() == it.index(),
            forall|q: int| 0 <= q < v.len() ==> v@[q] == it.seq()[q],
    {
        v.push(c);
    }
    assert(v@ =~= s@);
    v
}

/// The character script for the alignment `st` of `lc` with `r`, and
/// whether every step aligns two characters.
fn char_script(st: &Vec<Step>, lc: &Vec<char>, rc: &Vec<char>) -> (res: (Vec<string::Edit>, bool))
    requires
        lcs::in_bounds(st@, lc@.len(), rc@.len()),
    ensures
        char_script_follows(res.0@, st@, lc@, rc@),
        res.1 <==> forall|q: int| 0 <= q < st@.len() ==> #[trigger] st@[q] is Both,
{
    let mut s: Vec<string::Edit> = Vec::new();
    let mut all_both = true;
    let mut k: usize = 0;
    while k < st.len()
        invariant
            k <= st.len(),
            lcs::in_bounds(st@, lc@.len(), rc@.len()),
            s@.len() == k,
            forall|q: int|
                0 <= q < k ==> match #[trigger] st@[q] {
                    Step::Both(i, _) => s@[q] == string::Edit::Copy(lc@[i as int]),
                    Step::Left(i) => s@[q] == string::Edit::Remove(lc@[i as int]),
                    Step::Right(j) => s@[q] == string::Edit::Insert(rc@[j as int]),
                },
            all_both <==> forall|q: int| 0 <= q < k ==> #[trigger] st@[q] is Both,
        decreases st.len() - k,
    {
        let ghost prev = s@;
        let e = match st[k] {
            Step::Both(i, _) => string::Edit::Copy(lc[i]),
            Step::Left(i) => {
                all_both = false;
                string::Edit::Remove(lc[i])
            },
            Step::Right(j) => {
                all_both = false;
                string::Edit::Insert(rc[j])
            },
        };
        s.push(e);
        // The facts about `push` are instantiated by hand: the solver does
        // not find them on its own in this loop.
        proof {
            vstd::seq::axiom_seq_push_len(prev, e);
            vstd::seq::axiom_seq_push_index_same(prev, e, k as int);
            assert forall|q: int| 0 <= q < k implies s@[q] == prev[q] by {
                vstd::seq::axiom_seq_push_index_different(prev, e, q);
            }
        }
        k = k + 1;
    }
    (s, all_both)
}

/// Diffs two strings as sequences of characters, each character the same
/// entity only as an equal one.
pub fn diff_strings<'a>(l: &'a String, r: &'a String) -> (res: edit::Edit<'a, String, Vec<string::Edit>>)
    ensures
        res is Copy <==> l@ == r@,
        res matches edit::Edit::Copy(v) ==> v == l,
        res matches edit::Edit::Change(s) ==> char_script_follows(s@, lcs::alignment(l@, r@), l@, r@),
{
    let lc = chars_of(l);
    let rc = chars_of(r);
    let st = lcs::lcs(&lc, &rc);
    let (s, all_both) = char_script(&st, &lc, &rc);
    proof {
        if all_both {
            lcs::lemma_keep_equal_pairs(st@, l@, r@);
        } else if l@ == r@ {
            lcs::lemma_alignment_diagonal(l@);
        }
    }
    if all_both {
        edit::Edit::Copy(l)
    } else {
        edit::Edit::Change(s)
    }
}

impl<'a> Diffable<'a> for String {
    type Diff = Vec<string::Edit>;

    open spec fn unchanged(&self, other: &Self) -> bool {
        self@ == other@
    }

    open spec fn changed_to(&self, other: &Self, d: Self::Diff) -> bool {
        char_script_follows(d@, lcs::alignment(self@, other@), self@, other@)
    }

    proof fn lemma_unchanged_reflexive(&self) {
    }

    fn diff(&'a self, other: &'a Self) -> (r: edit::Edit<'a, Self, Self::Diff>) {
        diff_strings(self, other)
    }
}

} // verus!
