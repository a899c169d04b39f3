//! Web search: what is asked of a search engine's result page, and what is read from it.
use vstd::prelude::*;


pub mod bing;
pub mod engine;

verus! {

} // verus!
