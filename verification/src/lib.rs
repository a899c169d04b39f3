//! The logic of a small scriptable browser, verified.
use vstd::prelude::*;

pub mod text;
pub mod cdp;
pub mod codec;
pub mod js;
pub mod json;
pub mod render;
pub mod search;
pub mod strmap;

verus! {

} // verus!
