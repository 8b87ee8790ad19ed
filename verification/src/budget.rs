//! How much deeper the input may still be nested.

use vstd::prelude::*;

use crate::error::{outcome, Error, Fault};

verus! {

/// The number of levels that may still be opened.
#[derive(Debug)]
pub struct Budget {
    left: usize,
}

/// What opening one more level comes to.
pub open spec fn entered(left: nat) -> Result<nat, Fault> {
    if left == 0 {
        Err(Fault::RecursionLimitExceeded)
    } else {
        Ok((left - 1) as nat)
    }
}

impl Budget {
    /// The number of levels that may still be opened.
    pub closed spec fn left(&self) -> nat {
        self.left as nat
    }

    /// A budget of `limit` levels.
    pub fn new(limit: usize) -> (budget: Budget)
        ensures
            budget.left() == limit,
    {
        Budget { left: limit }
    }

    /// Opens a level.
    pub fn enter(&mut self) -> (result: Result<(), Error>)
        ensures
            match entered(old(self).left()) {
                Ok(left) => result is Ok && final(self).left() == left,
                Err(fault) => outcome(result) == Err::<(), Fault>(fault) && final(self).left()
                    == old(self).left(),
            },
    {
        if self.left == 0 {
            return Err(Error::RecursionLimitExceeded);
        }
        self.left = self.left - 1;
        Ok(())
    }

    /// Closes a level that [`Budget::enter`] opened.
    pub fn leave(&mut self)
        requires
            old(self).left() < usize::MAX,
        ensures
            final(self).left() == old(self).left() + 1,
    {
        self.left = self.left + 1;
    }
}

} // verus!
