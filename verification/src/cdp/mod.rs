//! The Chrome DevTools Protocol: messages, and the handlers of two of its domains.
use vstd::prelude::*;

pub mod fetch;
pub mod page;
pub mod protocol;
pub mod session;

verus! {

} // verus!
