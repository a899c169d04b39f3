//! The script runtime: what the functions that scripts can call compute, and
//! the thread that runs scripts.
use vstd::prelude::*;

pub mod arg;
pub mod case;
pub mod dom;
pub mod double;
pub mod encoding;
pub mod fetch_api;
pub mod history;
pub mod listeners;
pub mod observer;
pub mod runtime;
pub mod search_params;
pub mod storage;
pub mod timers;
pub mod value;
pub mod weburl;
pub mod window;
pub mod xhr;

verus! {

} // verus!
