//! Taking back what a connection was allowed.

use crate::core_errors::OpError;
use vstd::prelude::*;

verus! {

/// The files of this device, behind the switch of one served connection. Its
/// socket may stay open, but from the moment the switch is off every operation
/// on it is refused.
#[derive(Debug)]
pub struct GuardedFs {
    allowed: bool,
}

impl GuardedFs {
    pub closed spec fn is_allowed(self) -> bool {
        self.allowed
    }

    /// The files, as the switch stands.
    pub fn new(allowed: bool) -> (guard: GuardedFs)
        ensures
            guard.is_allowed() == allowed,
    {
        GuardedFs { allowed }
    }

    /// Whether the connection may still act: every file operation asks this
    /// first.
    pub fn check(&self) -> (checked: Result<(), OpError>)
        ensures
            checked == (if self.is_allowed() {
                Ok::<(), OpError>(())
            } else {
                Err(OpError::PermissionDenied)
            }),
    {
        if self.allowed {
            Ok(())
        } else {
            Err(OpError::PermissionDenied)
        }
    }
}

/// What is not allowed is refused, and what is allowed is not.
pub proof fn lemma_guard_refuses(allowed: bool, guard: GuardedFs, checked: Result<(), OpError>)
    requires
        call_ensures(GuardedFs::new, (allowed,), guard),
        call_ensures(GuardedFs::check, (&guard,), checked),
    ensures
        checked is Ok <==> allowed,
        checked matches Err(e) ==> e == OpError::PermissionDenied,
{
}

} // verus!
