//! Comparison of values by what they stand for.

use crate::text::same_text;
use vstd::prelude::*;

verus! {

/// Values that can be compared by their views.
pub trait Same: DeepView {
    /// Whether two values have the same view.
    fn same_as(&self, other: &Self) -> (same: bool)
        ensures
            same == (self.deep_view() == other.deep_view()),
    ;
}

impl Same for String {
    fn same_as(&self, other: &Self) -> (same: bool) {
        same_text(self.as_str(), other.as_str())
    }
}

impl<T: Same> Same for Option<T> {
    fn same_as(&self, other: &Self) -> (same: bool) {
        match (self, other) {
            (Some(a), Some(b)) => a.same_as(b),
            (None, None) => true,
            _ => false,
        }
    }
}

impl<T: Same> Same for Vec<T> {
    fn same_as(&self, other: &Self) -> (same: bool) {
        if self.len() != other.len() {
            assert(self.deep_view().len() != other.deep_view().len());
            return false;
        }
        let mut i: usize = 0;
        while i < self.len()
            invariant
                i <= self.len(),
                self.len() == other.len(),
                forall|k: int|
                    0 <= k < i ==> #[trigger] self.deep_view()[k] == other.deep_view()[k],
            decreases self.len() - i,
        {
            if !self[i].same_as(&other[i]) {
                assert(self.deep_view()[i as int] != other.deep_view()[i as int]);
                return false;
            }
            i += 1;
        }
        assert(self.deep_view() =~= other.deep_view());
        true
    }
}

} // verus!
