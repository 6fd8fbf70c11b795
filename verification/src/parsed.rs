//! What one read makes of the bytes in front of a cursor.

use crate::error::Error;
use vstd::prelude::*;

verus! {

/// The meaning of one read on the bytes in front of a cursor: the value or
/// the error that the read gives, and the number of bytes by which it moves
/// the cursor. A failed read moves the cursor too, past what it looked at
/// before it failed.
pub struct Parsed<T> {
    /// The value read, or why there is none.
    pub outcome: Result<T, Error>,
    /// The number of bytes the cursor moves forward, whatever the outcome.
    pub consumed: nat,
}

impl<T> Parsed<T> {
    /// The same read with its value dropped: it fails as before and moves
    /// as far as before.
    pub open spec fn discard(self) -> Parsed<()> {
        Parsed {
            outcome: match self.outcome {
                Ok(_) => Ok(()),
                Err(e) => Err(e),
            },
            consumed: self.consumed,
        }
    }
}

} // verus!
