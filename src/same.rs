use vstd::prelude::*;

verus! {

/// Identity of values: whether two values stand for the same logical entity,
/// which may hold where the values differ in content.
pub trait Same {
    /// The identity relation that `same` computes.
    spec fn same_spec(&self, other: &Self) -> bool;

    /// Every value is the same entity as itself.
    proof fn lemma_same_reflexive(&self)
        ensures
            self.same_spec(self),
    ;

    fn same(&self, other: &Self) -> (r: bool)
        ensures
            r == self.same_spec(other),
    ;
}

impl Same for u8 {
    open spec fn same_spec(&self, other: &Self) -> bool {
        *self == *other
    }

    proof fn lemma_same_reflexive(&self) {
    }

    fn same(&self, other: &Self) -> (r: bool) {
        *self == *other
    }
}

impl Same for u16 {
    open spec fn same_spec(&self, other: &Self) -> bool {
        *self == *other
    }

    proof fn lemma_same_reflexive(&self) {
    }

    fn same(&self, other: &Self) -> (r: bool) {
        *self == *other
    }
}

impl Same for u32 {
    open spec fn same_spec(&self, other: &Self) -> bool {
        *self == *other
    }

    proof fn lemma_same_reflexive(&self) {
    }

    fn same(&self, other: &Self) -> (r: bool) {
        *self == *other
    }
}

impl Same for u64 {
    open spec fn same_spec(&self, other: &Self) -> bool {
        *self == *other
    }

    proof fn lemma_same_reflexive(&self) {
    }

    fn same(&self, other: &Self) -> (r: bool) {
        *self == *other
    }
}

impl Same for i32 {
    open spec fn same_spec(&self, other: &Self) -> bool {
        *self == *other
    }

    proof fn lemma_same_reflexive(&self) {
    }

    fn same(&self, other: &Self) -> (r: bool) {
        *self == *other
    }
}

impl Same for i64 {
    open spec fn same_spec(&self, other: &Self) -> bool {
        *self == *other
    }

    proof fn lemma_same_reflexive(&self) {
    }

    fn same(&self, other: &Self) -> (r: bool) {
        *self == *other
    }
}

impl Same for bool {
    open spec fn same_spec(&self, other: &Self) -> bool {
        *self == *other
    }

    proof fn lemma_same_reflexive(&self) {
    }

    fn same(&self, other: &Self) -> (r: bool) {
        *self == *other
    }
}

impl Same for char {
    open spec fn same_spec(&self, other: &Self) -> bool {
        *self == *other
    }

    proof fn lemma_same_reflexive(&self) {
    }

    fn same(&self, other: &Self) -> (r: bool) {
        *self == *other
    }
}

impl Same for usize {
    open spec fn same_spec(&self, other: &Self) -> bool {
        *self == *other
    }

    proof fn lemma_same_reflexive(&self) {
    }

    fn same(&self, other: &Self) -> (r: bool) {
        *self == *other
    }
}

impl Same for String {
    open spec fn same_spec(&self, other: &Self) -> bool {
        self@ == other@
    }

    proof fn lemma_same_reflexive(&self) {
    }

    fn same(&self, other: &Self) -> (r: bool) {
        *self == *other
    }
}

/// Two sequences are the same entity when they have the same length and
/// their elements are pairwise the same.
pub open spec fn seq_same<T: Same>(l: Seq<T>, r: Seq<T>) -> bool {
    &&& l.len() == r.len()
    &&& forall|k: int| 0 <= k < l.len() ==> #[trigger] l[k].same_spec(&r[k])
}

impl<T: Same> Same for Vec<T> {
    open spec fn same_spec(&self, other: &Self) -> bool {
        seq_same(self@, other@)
    }

    proof fn lemma_same_reflexive(&self) {
        assert forall|k: int| 0 <= k < self@.len() implies #[trigger] self@[k].same_spec(&self@[k]) by {
            self@[k].lemma_same_reflexive();
        }
    }

    fn same(&self, other: &Self) -> (r: bool) {
        if self.len() != other.len() {
            return false;
        }
        let mut k: usize = 0;
        while k < self.len()
            invariant
                k <= self.len(),
                self.len() == other.len(),
                forall|q: int| 0 <= q < k ==> #[trigger] self@[q].same_spec(&other@[q]),
            decreases self.len() - k,
        {
            if !self[k].same(&other[k]) {
                return false;
            }
            k = k + 1;
        }
        true
    }
}

impl<A: Same, B: Same> Same for (A, B) {
    open spec fn same_spec(&self, other: &Self) -> bool {
        self.0.same_spec(&other.0) && self.1.same_spec(&other.1)
    }

    proof fn lemma_same_reflexive(&self) {
        self.0.lemma_same_reflexive();
        self.1.lemma_same_reflexive();
    }

    fn same(&self, other: &Self) -> (r: bool) {
        self.0.same(&other.0) && self.1.same(&other.1)
    }
}

impl<T: Same> Same for Option<T> {
    open spec fn same_spec(&self, other: &Self) -> bool {
        match (*self, *other) {
            (None, None) => true,
            (Some(a), Some(b)) => a.same_spec(&b),
            _ => false,
        }
    }

    proof fn lemma_same_reflexive(&self) {
        if let Some(a) = self {
            a.lemma_same_reflexive();
        }
    }

    fn same(&self, other: &Self) -> (r: bool) {
        match (self, other) {
            (None, None) => true,
            (Some(a), Some(b)) => a.same(b),
            _ => false,
        }
    }
}

impl<A: Same, B: Same> Same for Result<A, B> {
    open spec fn same_spec(&self, other: &Self) -> bool {
        match (*self, *other) {
            (Ok(a), Ok(b)) => a.same_spec(&b),
            (Err(a), Err(b)) => a.same_spec(&b),
            _ => false,
        }
    }

    proof fn lemma_same_reflexive(&self) {
        match self {
            Ok(a) => a.lemma_same_reflexive(),
            Err(a) => a.lemma_same_reflexive(),
        }
    }

    fn same(&self, other: &Self) -> (r: bool) {
        match (self, other) {
            (Ok(a), Ok(b)) => a.same(b),
            (Err(a), Err(b)) => a.same(b),
            _ => false,
        }
    }
}

} // verus!
