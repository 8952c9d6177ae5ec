pub mod authentication;
pub mod domain;
pub mod forms;
pub mod idempotency;
pub mod login;
pub mod newsletter;
pub mod publish;
pub mod secret;
pub mod startup;
pub mod subscriptions;

use vstd::prelude::*;

verus! {

/// Adds two machine integers; the caller guarantees the sum stays in range.
pub fn sum(a: i32, b: i32) -> (r: i32)
    requires
        i32::MIN <= a + b <= i32::MAX,
    ensures
        r == a + b,
{
    a + b
}

} // verus!
