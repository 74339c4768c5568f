use vstd::prelude::*;

use std::collections::{BTreeMap, HashMap};

use crate::edit;
use crate::Diffable;

verus! {

broadcast use {vstd::std_specs::hash::group_hash_axioms, vstd::std_specs::btree::group_btree_axioms};

/// `e` is the outcome for `key` when `l` is diffed against `r`: `Remove` of
/// the left value for a key on the left only, `Insert` of the right value for
/// a key on the right only, and for a key on both sides `Copy` of the left
/// value when unchanged, `Change` holding the values' own diff otherwise.
pub open spec fn entry_follows<'a, V: Diffable<'a>>(
    e: crate::edit::map::Edit<'a, V, V::Diff>,
    l: Map<u64, V>,
    r: Map<u64, V>,
    key: u64,
) -> bool {
    if l.contains_key(key) && r.contains_key(key) {
        if l[key].unchanged(&r[key]) {
            e matches crate::edit::map::Edit::Copy(x) && *x == l[key]
        } else {
            e matches crate::edit::map::Edit::Change(c) && l[key].changed_to(&r[key], c)
        }
    } else if l.contains_key(key) {
        e matches crate::edit::map::Edit::Remove(x) && *x == l[key]
    } else {
        e matches crate::edit::map::Edit::Insert(x) && *x == r[key]
    }
}

/// `d` holds one entry for each key of `l` or `r`, each as `entry_follows` says.
pub open spec fn map_follows<'a, V: Diffable<'a>>(
    d: Map<u64, crate::edit::map::Edit<'a, V, V::Diff>>,
    l: Map<u64, V>,
    r: Map<u64, V>,
) -> bool {
    &&& d.dom() == l.dom().union(r.dom())
    &&& forall|key: u64| #[trigger] d.contains_key(key) ==> entry_follows(d[key], l, r, key)
}

/// Two maps are unchanged when they have the same keys and each value is
/// unchanged against the other side's value.
pub open spec fn map_unchanged<'a, V: Diffable<'a>>(l: Map<u64, V>, r: Map<u64, V>) -> bool {
    &&& l.dom() == r.dom()
    &&& forall|key: u64| #[trigger] l.contains_key(key) ==> l[key].unchanged(&r[key])
}

/// `key` stands in both maps with values unchanged against each other.
pub open spec fn shared_unchanged<'a, V: Diffable<'a>>(l: Map<u64, V>, r: Map<u64, V>, key: u64) -> bool {
    &&& l.contains_key(key)
    &&& r.contains_key(key)
    &&& l[key].unchanged(&r[key])
}

/// `key` stands in `ks` at or after position `i`.
pub open spec fn pending(ks: Seq<&u64>, i: int, key: u64) -> bool {
    exists|q: int| i <= q < ks.len() && *ks[q] == key
}

/// When the outcome map covers exactly the keys of both sides, every one of
/// its keys is shared and unchanged exactly when the maps are unchanged.
proof fn lemma_all_shared_unchanged<'a, V: Diffable<'a>>(
    d: Map<u64, crate::edit::map::Edit<'a, V, V::Diff>>,
    l: Map<u64, V>,
    r: Map<u64, V>,
)
    requires
        d.dom() == l.dom().union(r.dom()),
    ensures
        (forall|key: u64| #[trigger] d.contains_key(key) ==> shared_unchanged(l, r, key)) <==> map_unchanged(l, r),
{
    if forall|key: u64| #[trigger] d.contains_key(key) ==> shared_unchanged(l, r, key) {
        assert forall|key: u64| r.contains_key(key) implies l.contains_key(key) by {
            assert(d.dom().contains(key));
        }
        assert forall|key: u64| #[trigger] l.contains_key(key) implies r.contains_key(key) && l[key].unchanged(&r[key]) by {
            assert(d.dom().contains(key));
        }
        assert(l.dom() =~= r.dom());
    }
    if map_unchanged(l, r) {
        assert forall|key: u64| #[trigger] d.contains_key(key) implies shared_unchanged(l, r, key) by {
            assert(l.dom().union(r.dom()).contains(key));
            if !l.contains_key(key) {
                assert(r.dom().contains(key));
            }
        }
    }
}

/// Diffs two maps key by key: keys on one side only are inserted or removed,
/// values under shared keys are diffed in full.
pub fn diff_maps<'a, V: Diffable<'a>>(l: &'a HashMap<u64, V>, r: &'a HashMap<u64, V>) -> (res: edit::Edit<
    'a,
    HashMap<u64, V>,
    HashMap<u64, crate::edit::map::Edit<'a, V, V::Diff>>,
>)
    ensures
        res is Copy <==> map_unchanged(l@, r@),
        res matches edit::Edit::Copy(v) ==> v == l,
        res matches edit::Edit::Change(d) ==> map_follows(d@, l@, r@),
{
    let mut d: HashMap<u64, crate::edit::map::Edit<'a, V, V::Diff>> = HashMap::new();
    let mut all_copy = true;
    for k in it: l.keys()
        invariant
            it.seq().unref().to_set() == l@.dom(),
            forall|key: u64| #[trigger] l@.contains_key(key) ==> d@.contains_key(key) || pending(it.seq(), it.index(), key),
            forall|key: u64| #[trigger] d@.contains_key(key) ==> l@.contains_key(key) && entry_follows(d@[key], l@, r@, key),
            all_copy <==> forall|key: u64| #[trigger] d@.contains_key(key) ==> shared_unchanged(l@, r@, key),
    {
        let key = *k;
        let ghost was_copy = all_copy;
        let lv = l.get(&key).unwrap();
        let e = match r.get(&key) {
            Some(rv) => match lv.diff(rv) {
                edit::Edit::Copy(x) => crate::edit::map::Edit::Copy(x),
                edit::Edit::Change(c) => {
                    all_copy = false;
                    crate::edit::map::Edit::Change(c)
                },
            },
            None => {
                all_copy = false;
                crate::edit::map::Edit::Remove(lv)
            },
        };
        let ghost before = d@;
        d.insert(key, e);
        proof {
            if !all_copy {
                assert(d@.contains_key(key));
                if was_copy {
                    assert(!shared_unchanged(l@, r@, key));
                } else {
                    let w = choose|w: u64| before.contains_key(w) && !shared_unchanged(l@, r@, w);
                    assert(d@.contains_key(w));
                }
            } else {
                assert forall|w: u64| #[trigger] d@.contains_key(w) implies shared_unchanged(l@, r@, w) by {
                    if w != key {
                        assert(before.contains_key(w));
                    }
                }
            }
        }
    }
    for k in it: r.keys()
        invariant
            it.seq().unref().to_set() == r@.dom(),
            forall|key: u64| #[trigger] l@.contains_key(key) ==> d@.contains_key(key),
            forall|key: u64| #[trigger] r@.contains_key(key) ==> d@.contains_key(key) || pending(it.seq(), it.index(), key),
            forall|key: u64| #[trigger] d@.contains_key(key) ==> l@.contains_key(key) || r@.contains_key(key),
            forall|key: u64| #[trigger] d@.contains_key(key) ==> entry_follows(d@[key], l@, r@, key),
            all_copy <==> forall|key: u64| #[trigger] d@.contains_key(key) ==> shared_unchanged(l@, r@, key),
    {
        let key = *k;
        if !l.contains_key(&key) {
            all_copy = false;
            d.insert(key, crate::edit::map::Edit::Insert(r.get(&key).unwrap()));
            assert(d@.contains_key(key) && !shared_unchanged(l@, r@, key));
        }
    }
    proof {
        assert(d@.dom() =~= l@.dom().union(r@.dom()));
        lemma_all_shared_unchanged(d@, l@, r@);
    }
    if all_copy {
        edit::Edit::Copy(l)
    } else {
        edit::Edit::Change(d)
    }
}

impl<'a, V: Diffable<'a>> Diffable<'a> for HashMap<u64, V> {
    type Diff = HashMap<u64, crate::edit::map::Edit<'a, V, V::Diff>>;

    open spec fn unchanged(&self, other: &Self) -> bool {
        map_unchanged(self@, other@)
    }

    open spec fn changed_to(&self, other: &Self, d: Self::Diff) -> bool {
        map_follows(d@, self@, other@)
    }

    proof fn lemma_unchanged_reflexive(&self) {
        assert forall|key: u64| #[trigger] self@.contains_key(key) implies self@[key].unchanged(&self@[key]) by {
            self@[key].lemma_unchanged_reflexive();
        }
    }

    fn diff(&'a self, other: &'a Self) -> (r: edit::Edit<'a, Self, Self::Diff>) {
        diff_maps(self, other)
    }
}

/// Diffs two ordered maps key by key: keys on one side only are inserted or removed,
/// values under shared keys are diffed in full.
pub fn diff_btree_maps<'a, V: Diffable<'a>>(l: &'a BTreeMap<u64, V>, r: &'a BTreeMap<u64, V>) -> (res: edit::Edit<
    'a,
    BTreeMap<u64, V>,
    BTreeMap<u64, crate::edit::map::Edit<'a, V, V::Diff>>,
>)
    ensures
        res is Copy <==> map_unchanged(l@, r@),
        res matches edit::Edit::Copy(v) ==> v == l,
        res matches edit::Edit::Change(d) ==> map_follows(d@, l@, r@),
{
    let mut d: BTreeMap<u64, crate::edit::map::Edit<'a, V, V::Diff>> = BTreeMap::new();
    let mut all_copy = true;
    for k in it: l.keys()
        invariant
            it.seq().unref().to_set() == l@.dom(),
            forall|key: u64| #[trigger] l@.contains_key(key) ==> d@.contains_key(key) || pending(it.seq(), it.index(), key),
            forall|key: u64| #[trigger] d@.contains_key(key) ==> l@.contains_key(key) && entry_follows(d@[key], l@, r@, key),
            all_copy <==> forall|key: u64| #[trigger] d@.contains_key(key) ==> shared_unchanged(l@, r@, key),
    {
        let key = *k;
        let ghost was_copy = all_copy;
        let lv = l.get(&key).unwrap();
        let e = match r.get(&key) {
            Some(rv) => match lv.diff(rv) {
                edit::Edit::Copy(x) => crate::edit::map::Edit::Copy(x),
                edit::Edit::Change(c) => {
                    all_copy = false;
                    crate::edit::map::Edit::Change(c)
                },
            },
            None => {
                all_copy = false;
                crate::edit::map::Edit::Remove(lv)
            },
        };
        let ghost before = d@;
        d.insert(key, e);
        proof {
            if !all_copy {
                assert(d@.contains_key(key));
                if was_copy {
                    assert(!shared_unchanged(l@, r@, key));
                } else {
                    let w = choose|w: u64| before.contains_key(w) && !shared_unchanged(l@, r@, w);
                    assert(d@.contains_key(w));
                }
            } else {
                assert forall|w: u64| #[trigger] d@.contains_key(w) implies shared_unchanged(l@, r@, w) by {
                    if w != key {
                        assert(before.contains_key(w));
                    }
                }
            }
        }
    }
    for k in it: r.keys()
        invariant
            it.seq().unref().to_set() == r@.dom(),
            forall|key: u64| #[trigger] l@.contains_key(key) ==> d@.contains_key(key),
            forall|key: u64| #[trigger] r@.contains_key(key) ==> d@.contains_key(key) || pending(it.seq(), it.index(), key),
            forall|key: u64| #[trigger] d@.contains_key(key) ==> l@.contains_key(key) || r@.contains_key(key),
            forall|key: u64| #[trigger] d@.contains_key(key) ==> entry_follows(d@[key], l@, r@, key),
            all_copy <==> forall|key: u64| #[trigger] d@.contains_key(key) ==> shared_unchanged(l@, r@, key),
    {
        let key = *k;
        if !l.contains_key(&key) {
            all_copy = false;
            d.insert(key, crate::edit::map::Edit::Insert(r.get(&key).unwrap()));
            assert(d@.contains_key(key) && !shared_unchanged(l@, r@, key));
        }
    }
    proof {
        assert(d@.dom() =~= l@.dom().union(r@.dom()));
        lemma_all_shared_unchanged(d@, l@, r@);
    }
    if all_copy {
        edit::Edit::Copy(l)
    } else {
        edit::Edit::Change(d)
    }
}

impl<'a, V: Diffable<'a>> Diffable<'a> for BTreeMap<u64, V> {
    type Diff = BTreeMap<u64, crate::edit::map::Edit<'a, V, V::Diff>>;

    open spec fn unchanged(&self, other: &Self) -> bool {
        map_unchanged(self@, other@)
    }

    open spec fn changed_to(&self, other: &Self, d: Self::Diff) -> bool {
        map_follows(d@, self@, other@)
    }

    proof fn lemma_unchanged_reflexive(&self) {
        assert forall|key: u64| #[trigger] self@.contains_key(key) implies self@[key].unchanged(&self@[key]) by {
            self@[key].lemma_unchanged_reflexive();
        }
    }

    fn diff(&'a self, other: &'a Self) -> (r: edit::Edit<'a, Self, Self::Diff>) {
        diff_btree_maps(self, other)
    }
}

} // verus!
