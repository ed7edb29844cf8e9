//! Transport-side types that hold no connection.

use vstd::prelude::*;

verus! {

/// A subscription that holds nothing; ending it always succeeds.
#[derive(Clone, Copy, Debug, PartialEq, Eq, Structural)]
pub struct NoopSubscription;

impl NoopSubscription {
    /// Ends the subscription: there is nothing to undo.
    pub fn unsubscribe(&self) -> (r: Result<(), crate::errors::DeviceConnectError>)
        ensures
            r is Ok,
    {
        Ok(())
    }
}

} // verus!
