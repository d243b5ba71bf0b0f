//! Cancellation by a signal.

use crate::runtime::JdvrifError;
use vstd::prelude::*;

verus! {

/// An operation goes on unless a signal is pending.
pub fn check_cancellation(pending_signal: Option<i32>) -> (r: Result<(), JdvrifError>)
    ensures
        r == (if pending_signal is Some {
            Err(JdvrifError::Interrupted)
        } else {
            Ok(())
        }),
{
    match pending_signal {
        Some(_) => Err(JdvrifError::Interrupted),
        None => Ok(()),
    }
}

} // verus!
