use std::collections::{BTreeMap, HashMap, VecDeque};

use diffus::edit::{self, collection, enm, string};
use diffus::lcs::{lcs, Step};
use diffus::Diffable;

fn rebuild_right<'a>(script: &[collection::Edit<'a, u8, (&'a u8, &'a u8)>]) -> Vec<u8> {
    let mut out = Vec::new();
    for e in script {
        match e {
            collection::Edit::Copy(x) | collection::Edit::Insert(x) => out.push(**x),
            collection::Edit::Change((_, r)) => out.push(**r),
            collection::Edit::Remove(_) => {}
        }
    }
    out
}

fn rebuild_left<'a>(script: &[collection::Edit<'a, u8, (&'a u8, &'a u8)>]) -> Vec<u8> {
    let mut out = Vec::new();
    for e in script {
        match e {
            collection::Edit::Copy(x) | collection::Edit::Remove(x) => out.push(**x),
            collection::Edit::Change((l, _)) => out.push(**l),
            collection::Edit::Insert(_) => {}
        }
    }
    out
}

#[test]
fn sequence_script_rebuilds_both_sides() {
    let left = b"ABCBDAB".to_vec();
    let right = b"BDCABA".to_vec();
    if let edit::Edit::Change(script) = left.diff(&right) {
        assert_eq!(rebuild_left(&script), left);
        assert_eq!(rebuild_right(&script), right);
        let copies = script.iter().filter(|e| e.is_copy()).count();
        assert_eq!(copies, 4);
    } else {
        unreachable!()
    }
}

#[test]
fn lcs_steps_of_small_sequences() {
    let left = vec![1u32, 2, 3];
    let right = vec![2u32, 3, 4];
    assert_eq!(
        lcs(&left, &right),
        vec![Step::Left(0), Step::Both(1, 0), Step::Both(2, 1), Step::Right(2)]
    );
}

#[test]
fn empty_sequences_are_copy() {
    let left: Vec<u32> = vec![];
    let right: Vec<u32> = vec![];
    assert!(left.diff(&right).is_copy());
}

#[test]
fn empty_against_nonempty_inserts_all() {
    let left: Vec<u32> = vec![];
    let right = vec![7u32, 8];
    let diff = left.diff(&right);
    assert_eq!(
        diff.change().unwrap(),
        &vec![collection::Edit::Insert(&7), collection::Edit::Insert(&8)]
    );
    let back = right.diff(&left);
    assert_eq!(
        back.change().unwrap(),
        &vec![collection::Edit::Remove(&7), collection::Edit::Remove(&8)]
    );
}

#[test]
fn same_values_diff_to_copy() {
    let v = vec![3u32, 1, 4, 1, 5];
    assert_eq!(v.diff(&v).copy(), Some(&v));

    let m: HashMap<u64, u32> = [(1, 10), (2, 20)].iter().cloned().collect();
    assert!(m.diff(&m.clone()).is_copy());

    let s = "hello".to_string();
    assert!(s.diff(&s.clone()).is_copy());

    let p = ("x".to_string(), 5i64);
    assert!(p.diff(&p.clone()).is_copy());

    let o: Option<u32> = Some(4);
    assert!(o.diff(&o.clone()).is_copy());
    let none: Option<u32> = None;
    assert!(none.diff(&None).is_copy());

    let r: Result<u32, String> = Err("bad".to_string());
    assert!(r.diff(&r.clone()).is_copy());
}

#[test]
fn map_keys_cover_both_sides() {
    let left: HashMap<u64, u32> = [(1, 1), (5, 5), (9, 9)].iter().cloned().collect();
    let right: HashMap<u64, u32> = [(5, 6), (9, 9), (12, 1)].iter().cloned().collect();
    let diff = left.diff(&right);
    let d = diff.change().unwrap();
    let mut keys: Vec<u64> = d.keys().cloned().collect();
    keys.sort();
    assert_eq!(keys, vec![1, 5, 9, 12]);
    assert_eq!(d[&1].remove(), Some(&1));
    assert_eq!(d[&5].change(), Some(&(&5, &6)));
    assert_eq!(d[&9].copy(), Some(&9));
    assert_eq!(d[&12].insert(), Some(&1));
}

#[test]
fn ordered_map_diff_classifies_keys() {
    let left: BTreeMap<u64, String> = [(1, "a".to_string()), (2, "b".to_string())]
        .iter()
        .cloned()
        .collect();
    let right: BTreeMap<u64, String> = [(2, "c".to_string()), (3, "d".to_string())]
        .iter()
        .cloned()
        .collect();
    let diff = left.diff(&right);
    let d = diff.change().unwrap();
    assert_eq!(d.keys().cloned().collect::<Vec<u64>>(), vec![1, 2, 3]);
    assert_eq!(d[&1].remove(), Some(&"a".to_string()));
    assert_eq!(
        d[&2].change(),
        Some(&vec![string::Edit::Remove('b'), string::Edit::Insert('c')])
    );
    assert_eq!(d[&3].insert(), Some(&"d".to_string()));
    assert!(left.diff(&left.clone()).is_copy());
}

#[test]
fn map_with_only_extra_key_is_change() {
    let left: HashMap<u64, u32> = HashMap::new();
    let right: HashMap<u64, u32> = [(3, 3)].iter().cloned().collect();
    let diff = left.diff(&right);
    assert!(diff.change().unwrap()[&3].is_insert());
}

#[test]
fn union_tags_decide_variant_change() {
    let some: Option<u32> = Some(1);
    let other: Option<u32> = Some(2);
    let none: Option<u32> = None;

    match some.diff(&none) {
        edit::Edit::Change(enm::Edit::VariantChanged(l, r)) => {
            assert_eq!(l, &some);
            assert_eq!(r, &none);
        }
        _ => unreachable!(),
    }
    match some.diff(&other) {
        edit::Edit::Change(enm::Edit::AssociatedChanged(d)) => assert_eq!(d, (&1, &2)),
        _ => unreachable!(),
    }
}

#[test]
fn union_variant_change_keeps_whole_values() {
    let left: Result<(u32, String), String> = Ok((42, "Bilbo".to_string()));
    let right: Result<(u32, String), String> = Err("Frodo".to_string());
    match left.diff(&right) {
        edit::Edit::Change(enm::Edit::VariantChanged(l, r)) => {
            assert_eq!(l, &left);
            assert_eq!(r, &right);
        }
        _ => unreachable!(),
    }
}

#[test]
fn union_same_variant_diffs_payload() {
    let left: Result<(u32, String), String> = Ok((42, "Bilbo".to_string()));
    let right: Result<(u32, String), String> = Ok((42, "Bilbo!".to_string()));
    match left.diff(&right) {
        edit::Edit::Change(enm::Edit::AssociatedChanged(enm::EditedResult::Success(d))) => {
            assert!(d.0.is_copy());
            assert_eq!(
                d.1.change().unwrap(),
                &vec![
                    string::Edit::Copy('B'),
                    string::Edit::Copy('i'),
                    string::Edit::Copy('l'),
                    string::Edit::Copy('b'),
                    string::Edit::Copy('o'),
                    string::Edit::Insert('!'),
                ]
            );
        }
        _ => unreachable!(),
    }
}

#[test]
fn string_diff_removes_and_inserts() {
    let left = "string".to_string();
    let right = "strga".to_string();
    assert_eq!(
        left.diff(&right).change().unwrap(),
        &vec![
            string::Edit::Copy('s'),
            string::Edit::Copy('t'),
            string::Edit::Copy('r'),
            string::Edit::Remove('i'),
            string::Edit::Remove('n'),
            string::Edit::Copy('g'),
            string::Edit::Insert('a'),
        ]
    );
}

#[test]
fn scalar_change_holds_both_values() {
    assert_eq!(3u64.diff(&4u64).change(), Some(&(&3, &4)));
    assert_eq!('a'.diff(&'a').copy(), Some(&'a'));
    assert!(true.diff(&false).is_change());
    assert!((-1i32).diff(&-1i32).is_copy());
}

#[test]
fn edit_accessors_report_absence() {
    let x = 5u32;
    let e: collection::Edit<'_, u32, (&u32, &u32)> = collection::Edit::Insert(&x);
    assert!(e.is_insert());
    assert!(!e.is_remove());
    assert!(!e.is_copy());
    assert!(!e.is_change());
    assert_eq!(e.insert(), Some(&5));
    assert_eq!(e.remove(), None);
    assert_eq!(e.copy(), None);
    assert!(e.change().is_none());
}

#[test]
fn nested_sequences_align_by_structure() {
    let left = vec![vec![1u32, 2], vec![3]];
    let right = vec![vec![1u32, 2], vec![4]];
    let diff = left.diff(&right);
    assert_eq!(diff.change().unwrap().len(), 3);
    assert_eq!(diff.change().unwrap()[0].copy(), Some(&vec![1u32, 2]));
    assert_eq!(diff.change().unwrap()[1].remove(), Some(&vec![3u32]));
    assert_eq!(diff.change().unwrap()[2].insert(), Some(&vec![4u32]));

    let opts = vec![Some(1u32), None];
    assert!(opts.diff(&opts.clone()).is_copy());
    let pairs = vec![(1u32, 2u64)];
    let other = vec![(1u32, 3u64)];
    assert!(pairs.diff(&other).change().unwrap()[0].is_remove());
}

#[test]
fn deque_diff_matches_vec_diff() {
    let left: VecDeque<u8> = b"XMJYAUZ".iter().cloned().collect();
    let right: VecDeque<u8> = b"MZJAWXU".iter().cloned().collect();
    let diff = left.diff(&right);
    let script = diff.change().unwrap();
    assert_eq!(script.len(), 10);
    assert_eq!(script[0].remove(), Some(&b'X'));
    assert_eq!(script[1].copy(), Some(&b'M'));
    assert_eq!(script[2].insert(), Some(&b'Z'));
    assert_eq!(script[9].remove(), Some(&b'Z'));
    assert!(left.diff(&left.clone()).is_copy());
}
