//! Owned copies of borrowed identities, as grouping keys.

use vstd::prelude::*;

verus! {

/// Makes an owned copy of a borrowed value, or of each part of a tuple of
/// borrowed values.
pub trait DeepClone {
    type Output;

    fn deep_clone(&self) -> Self::Output;
}

impl<'a, T: Clone> DeepClone for &'a T {
    type Output = T;

    fn deep_clone(&self) -> T {
        (**self).clone()
    }
}

impl<A: DeepClone> DeepClone for (A,) {
    type Output = (A::Output,);

    fn deep_clone(&self) -> (A::Output,) {
        (self.0.deep_clone(),)
    }
}

impl<A: DeepClone, B: DeepClone> DeepClone for (A, B) {
    type Output = (A::Output, B::Output);

    fn deep_clone(&self) -> (A::Output, B::Output) {
        (self.0.deep_clone(), self.1.deep_clone())
    }
}

} // verus!
