//! Frame-local input state shared through the resource registry.

use vstd::prelude::*;

verus! {

/// Relative mouse motion accumulated for the current frame, as `(x, y)`.
pub struct Mouse(pub i32, pub i32);

impl Mouse {
    /// Clears the per-frame motion back to zero before new events arrive.
    pub fn reset(&mut self)
        ensures
            final(self).0 == 0,
            final(self).1 == 0,
    {
        self.0 = 0;
        self.1 = 0;
    }
}

} // verus!
