//! Dropping a value on purpose.

use vstd::prelude::*;

verus! {

/// A value that can be used up, for a result that a caller chooses not to
/// look at.
pub trait Consume {
    /// Uses the value up.
    fn consume(self);
}

impl<T> Consume for T {
    fn consume(self) {
        let _ = self;
    }
}

} // verus!
