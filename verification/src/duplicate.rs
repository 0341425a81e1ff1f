//! Copies whose contents are known to equal the original's.

use vstd::prelude::*;

pub use vstd::view::DeepView;

verus! {

/// A value that can be copied in full, with the copy's contents equal to the
/// original's contents.
pub trait Duplicate: DeepView + Sized {
    fn duplicate(&self) -> (copy: Self)
        ensures
            copy.deep_view() == self.deep_view(),
    ;
}

impl Duplicate for u8 {
    fn duplicate(&self) -> (copy: Self) {
        *self
    }
}

impl Duplicate for u64 {
    fn duplicate(&self) -> (copy: Self) {
        *self
    }
}

impl Duplicate for String {
    fn duplicate(&self) -> (copy: Self) {
        self.clone()
    }
}

impl<T: Duplicate> Duplicate for Option<T> {
    fn duplicate(&self) -> (copy: Self) {
        match self {
            Some(value) => Some(value.duplicate()),
            None => None,
        }
    }
}

impl<T: Duplicate> Duplicate for Vec<T> {
    fn duplicate(&self) -> (copy: Self) {
        let mut copy: Vec<T> = Vec::new();
        for i in 0..self.len()
            invariant
                copy@.len() == i,
                forall|k: int| 0 <= k < i ==> (#[trigger] copy@[k]).deep_view() == self@[k].deep_view(),
        {
            copy.push(self[i].duplicate());
        }
        assert(copy.deep_view() =~= self.deep_view());
        copy
    }
}

} // verus!
