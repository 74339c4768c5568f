use std::collections::HashMap;

use diffus::edit::{self, collection, enm, string};
use diffus::{Diffable, Same};

#[derive(Clone, Debug, PartialEq)]
struct Identified {
    id: u32,
    value: u32,
}

#[derive(Debug, PartialEq)]
struct EditedIdentified<'a> {
    id: edit::Edit<'a, u32, (&'a u32, &'a u32)>,
    value: edit::Edit<'a, u32, (&'a u32, &'a u32)>,
}

impl Same for Identified {
    fn same_spec(&self, other: &Self) -> bool {
        self.id == other.id
    }

    fn lemma_same_reflexive(&self) {}

    fn same(&self, other: &Self) -> bool {
        self.id == other.id
    }
}

impl<'a> Diffable<'a> for Identified {
    type Diff = EditedIdentified<'a>;

    fn unchanged(&self, other: &Self) -> bool {
        self == other
    }

    fn changed_to(&self, other: &Self, d: Self::Diff) -> bool {
        d.id.is_copy() == (self.id == other.id) && d.value.is_copy() == (self.value == other.value)
    }

    fn lemma_unchanged_reflexive(&self) {}

    fn diff(&'a self, other: &'a Self) -> edit::Edit<'a, Self, Self::Diff> {
        let id = self.id.diff(&other.id);
        let value = self.value.diff(&other.value);
        if id.is_copy() && value.is_copy() {
            edit::Edit::Copy(self)
        } else {
            edit::Edit::Change(EditedIdentified { id, value })
        }
    }
}

#[derive(Clone, Debug, PartialEq)]
enum Test {
    A,
    B(String),
    Bd(String, u32),
    C { x: u32 },
    Cd { x: u32, y: String },
}

enum EditedTest<'a> {
    A,
    B(edit::Edit<'a, String, Vec<string::Edit>>),
    Bd(
        edit::Edit<'a, String, Vec<string::Edit>>,
        edit::Edit<'a, u32, (&'a u32, &'a u32)>,
    ),
    C {
        x: edit::Edit<'a, u32, (&'a u32, &'a u32)>,
    },
    Cd {
        x: edit::Edit<'a, u32, (&'a u32, &'a u32)>,
        y: edit::Edit<'a, String, Vec<string::Edit>>,
    },
}

impl<'a> Diffable<'a> for Test {
    type Diff = enm::Edit<'a, Test, EditedTest<'a>>;

    fn unchanged(&self, other: &Self) -> bool {
        self == other
    }

    fn changed_to(&self, other: &Self, d: Self::Diff) -> bool {
        let same_variant = std::mem::discriminant(self) == std::mem::discriminant(other);
        match d {
            enm::Edit::VariantChanged(l, r) => !same_variant && l == self && r == other,
            enm::Edit::AssociatedChanged(_) => same_variant,
        }
    }

    fn lemma_unchanged_reflexive(&self) {}

    fn diff(&'a self, other: &'a Self) -> edit::Edit<'a, Self, Self::Diff> {
        let payload = match (self, other) {
            (Test::A, Test::A) => EditedTest::A,
            (Test::B(l), Test::B(r)) => EditedTest::B(l.diff(r)),
            (Test::Bd(ls, lx), Test::Bd(rs, rx)) => EditedTest::Bd(ls.diff(rs), lx.diff(rx)),
            (Test::C { x: lx }, Test::C { x: rx }) => EditedTest::C { x: lx.diff(rx) },
            (Test::Cd { x: lx, y: ly }, Test::Cd { x: rx, y: ry }) => EditedTest::Cd {
                x: lx.diff(rx),
                y: ly.diff(ry),
            },
            _ => return edit::Edit::Change(enm::Edit::VariantChanged(self, other)),
        };
        let unchanged = match &payload {
            EditedTest::A => true,
            EditedTest::B(b) => b.is_copy(),
            EditedTest::Bd(s, x) => s.is_copy() && x.is_copy(),
            EditedTest::C { x } => x.is_copy(),
            EditedTest::Cd { x, y } => x.is_copy() && y.is_copy(),
        };
        if unchanged {
            edit::Edit::Copy(self)
        } else {
            edit::Edit::Change(enm::Edit::AssociatedChanged(payload))
        }
    }
}

enum NestedTest {
    T { test: Test },
}

enum EditedNestedTest<'a> {
    T {
        test: edit::Edit<'a, Test, enm::Edit<'a, Test, EditedTest<'a>>>,
    },
}

impl<'a> Diffable<'a> for NestedTest {
    type Diff = enm::Edit<'a, NestedTest, EditedNestedTest<'a>>;

    fn unchanged(&self, other: &Self) -> bool {
        match (self, other) {
            (NestedTest::T { test: l }, NestedTest::T { test: r }) => l == r,
        }
    }

    fn changed_to(&self, _other: &Self, d: Self::Diff) -> bool {
        matches!(d, enm::Edit::AssociatedChanged(_))
    }

    fn lemma_unchanged_reflexive(&self) {}

    fn diff(&'a self, other: &'a Self) -> edit::Edit<'a, Self, Self::Diff> {
        match (self, other) {
            (NestedTest::T { test: l }, NestedTest::T { test: r }) => {
                let test = l.diff(r);
                if test.is_copy() {
                    edit::Edit::Copy(self)
                } else {
                    edit::Edit::Change(enm::Edit::AssociatedChanged(EditedNestedTest::T { test }))
                }
            }
        }
    }
}

fn identified(id: u32, value: u32) -> Identified {
    Identified { id, value }
}

#[test]
fn diff() {
    let left = b"XMJYAUZ".to_vec();
    let right = b"MZJAWXU".to_vec();

    let diff = left.diff(&right);
    if let edit::Edit::Change(diff) = diff {
        assert_eq!(
            diff.into_iter().collect::<Vec<_>>(),
            vec![
                collection::Edit::Remove(&b'X'),
                collection::Edit::Copy(&b'M'),
                collection::Edit::Insert(&b'Z'),
                collection::Edit::Copy(&b'J'),
                collection::Edit::Remove(&b'Y'),
                collection::Edit::Copy(&b'A'),
                collection::Edit::Insert(&b'W'),
                collection::Edit::Insert(&b'X'),
                collection::Edit::Copy(&b'U'),
                collection::Edit::Remove(&b'Z')
            ]
        );
    } else {
        unreachable!()
    }
}

#[test]
fn map_example() {
    let unity: HashMap<u64, u32> = [(1, 1), (2, 2), (3, 3)].iter().cloned().collect();
    let not_unity: HashMap<u64, u32> = [(1, 1), (2, 3), (4, 4)].iter().cloned().collect();

    if let edit::Edit::Change(diff) = unity.diff(&not_unity) {
        assert!(diff[&1].is_copy());
        assert_eq!(diff[&2].change().unwrap(), &(&2, &3));
        assert!(diff[&3].is_remove());
        assert_eq!(diff[&4].insert().unwrap(), &4);
        assert_eq!(diff.len(), 4);
    } else {
        unreachable!()
    }
}

#[test]
fn non_trivial_same_collection() {
    let left = vec![
        identified(1, 0),
        identified(2, 0),
        identified(3, 0),
        identified(4, 0),
        identified(5, 0),
        identified(6, 0),
        identified(7, 0),
    ];
    let right = vec![
        identified(1, 0),
        identified(2, 1),
        identified(4, 0),
        identified(3, 0),
        identified(5, 0),
        identified(6, 0),
    ];

    let diff = left.diff(&right);

    if let edit::Edit::Change(diff) = diff {
        let diff = diff.into_iter().collect::<Vec<_>>();

        if let (
            &collection::Edit::Change(EditedIdentified {
                id: edit::Edit::Copy(&2),
                value: edit::Edit::Change((&0, &1)),
            }),
            &collection::Edit::Remove(&Identified { id: 3, value: 0 }),
            &collection::Edit::Copy(&Identified { id: 4, value: 0 }),
            &collection::Edit::Insert(&Identified { id: 3, value: 0 }),
        ) = (&diff[1], &diff[2], &diff[3], &diff[4])
        {
        } else {
            unreachable!()
        }
        assert!(diff[0].is_copy());
        assert!(diff[5].is_copy());
        assert!(diff[6].is_copy());
        assert!(diff[7].is_remove());
        assert_eq!(diff.len(), 8);
    } else {
        unreachable!()
    }
}

#[test]
fn changed_contents() {
    let left = vec![identified(1, 0)];
    let right = vec![identified(1, 1)];

    let diff = left.diff(&right);

    if let edit::Edit::Change(diff) = diff {
        let diff = diff.into_iter().collect::<Vec<_>>();

        assert_eq!(diff.len(), 1);

        if let &collection::Edit::Change(EditedIdentified {
            id: edit::Edit::Copy(&1),
            value: edit::Edit::Change((&0, &1)),
        }) = &diff[0]
        {
        } else {
            unreachable!()
        }
    } else {
        unreachable!()
    }
}

#[test]
fn enm_nested_test() {
    let left = NestedTest::T {
        test: Test::C { x: 32 },
    };
    let right = NestedTest::T {
        test: Test::C { x: 43 },
    };

    let diff = left.diff(&right);

    if let enm::Edit::AssociatedChanged(EditedNestedTest::T { test }) = diff.change().unwrap() {
        if let enm::Edit::AssociatedChanged(EditedTest::C { x }) = test.change().unwrap() {
            assert_eq!(x.change(), Some(&(&32, &43)));
        } else {
            unreachable!();
        }
    } else {
        unreachable!();
    }
}

#[test]
fn enm_associated_not_change_tuple_variant() {
    let left = Test::Bd("Bilbo Baggins".to_owned(), 42);
    let right = Test::Bd("Bilbo Baggins".to_owned(), 42);

    assert!(left.diff(&right).is_copy());
}

#[test]
fn enm_associated_not_change() {
    let left = Test::Cd {
        x: 42,
        y: "Bilbo Baggins".to_owned(),
    };
    let right = Test::Cd {
        x: 42,
        y: "Bilbo Baggins".to_owned(),
    };

    assert!(left.diff(&right).is_copy());
}

#[test]
fn enm_associated_change() {
    let left = Test::Cd {
        x: 42,
        y: "Bilbo Baggins".to_owned(),
    };
    let right = Test::Cd {
        x: 42,
        y: "Frodo Baggins".to_owned(),
    };
    if let edit::Edit::Change(enm::Edit::AssociatedChanged(EditedTest::Cd { x, y })) =
        left.diff(&right)
    {
        assert!(x.is_copy());
        assert!(y.is_change());
    } else {
        unreachable!()
    }
}

#[test]
fn enm_variant_change() {
    let left = Test::Cd {
        x: 42,
        y: "Bilbo Baggins".to_owned(),
    };
    let right = Test::B("Frodo Baggins".to_owned());
    if let edit::Edit::Change(enm::Edit::VariantChanged(l, r)) = left.diff(&right) {
        assert_eq!(&left, l);
        assert_eq!(&right, r);
    } else {
        unreachable!()
    }
}

#[test]
fn unit_variant_is_copy() {
    assert!(Test::A.diff(&Test::A).is_copy());
    assert!(Test::B("x".to_owned()).diff(&Test::A).is_change());
}

#[test]
fn nested() {
    let left = (("x".to_owned(), 13u32), 3i32);
    let right = (("x".to_owned(), 37u32), 3i32);

    let diff = left.diff(&right);

    assert_eq!(
        diff.change().unwrap().0.change().unwrap().1.change().unwrap(),
        &(&13, &37)
    );
    assert!(diff.change().unwrap().1.is_copy());
    assert!(diff.change().unwrap().0.change().unwrap().0.is_copy());
}

#[test]
fn struct_containing_str() {
    let a = "a".to_owned();
    let ap = "a'".to_owned();

    let diff = a.diff(&ap);
    let actual = diff.change().unwrap();

    assert_eq!(
        actual,
        &vec![string::Edit::Copy('a'), string::Edit::Insert('\'')]
    );
}

#[test]
fn test() {
    let a = ("a".to_string(), 12i32);
    let ap = ("a'".to_string(), 13i32);

    let diff = a.diff(&ap);
    let actual_a = diff.change().unwrap().0.change().unwrap();
    let actual_inner = diff.change().unwrap().1.change().unwrap();

    assert_eq!(
        actual_a,
        &vec![string::Edit::Copy('a'), string::Edit::Insert('\'')]
    );

    assert_eq!(actual_inner, &(&12, &13));
}
