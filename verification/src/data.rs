//! Copying and comparing values by their mathematical model.

use vstd::prelude::*;

verus! {

/// Types whose values can be copied. A copy has the model of what it was
/// copied from.
pub trait Duplicate: DeepView + Sized {
    fn duplicate(&self) -> (copy: Self)
        ensures
            copy.deep_view() == self.deep_view(),
    ;
}

/// Types whose values can be compared by model.
pub trait Same: DeepView + Sized {
    fn same(&self, other: &Self) -> (equal: bool)
        ensures
            equal == (self.deep_view() == other.deep_view()),
    ;
}

impl Duplicate for String {
    fn duplicate(&self) -> (copy: Self) {
        self.clone()
    }
}

impl Same for String {
    fn same(&self, other: &Self) -> (equal: bool) {
        *self == *other
    }
}

impl Duplicate for u64 {
    fn duplicate(&self) -> (copy: Self) {
        *self
    }
}

impl<T: Duplicate> Duplicate for Option<T> {
    fn duplicate(&self) -> (copy: Self) {
        match self {
            Some(value) => Some(value.duplicate()),
            None => None,
        }
    }
}

impl<T: Duplicate> Duplicate for Vec<T> {
    fn duplicate(&self) -> (copy: Self) {
        let mut copy: Vec<T> = Vec::new();
        let mut i: usize = 0;
        while i < self.len()
            invariant
                i <= self@.len(),
                copy@.len() == i,
                forall|j: int| 0 <= j < i ==> (#[trigger] copy@[j]).deep_view() == self@[j].deep_view(),
            decreases self@.len() - i,
        {
            copy.push(self[i].duplicate());
            i = i + 1;
        }
        assert(copy.deep_view() =~= self.deep_view());
        copy
    }
}

impl<T: Same> Same for Vec<T> {
    fn same(&self, other: &Self) -> (equal: bool) {
        if self.len() != other.len() {
            assert(self.deep_view().len() != other.deep_view().len());
            return false;
        }
        let mut i: usize = 0;
        while i < self.len()
            invariant
                i <= self@.len() == other@.len(),
                forall|j: int| 0 <= j < i ==> (#[trigger] self@[j]).deep_view() == other@[j].deep_view(),
            decreases self@.len() - i,
        {
            if !self[i].same(&other[i]) {
                assert(self.deep_view()[i as int] != other.deep_view()[i as int]);
                return false;
            }
            i = i + 1;
        }
        assert(self.deep_view() =~= other.deep_view());
        true
    }
}

/// Copies the elements of `items` from position `from` on.
pub fn duplicate_from<T: Duplicate>(items: &Vec<T>, from: usize) -> (tail: Vec<T>)
    requires
        from <= items@.len(),
    ensures
        tail.deep_view() == items.deep_view().skip(from as int),
{
    let mut tail: Vec<T> = Vec::new();
    let mut i: usize = from;
    while i < items.len()
        invariant
            from <= i <= items@.len(),
            tail@.len() == i - from,
            forall|j: int| 0 <= j < i - from ==> (#[trigger] tail@[j]).deep_view() == items@[from + j].deep_view(),
        decreases items@.len() - i,
    {
        tail.push(items[i].duplicate());
        i = i + 1;
    }
    assert(tail.deep_view() =~= items.deep_view().skip(from as int));
    tail
}

} // verus!
