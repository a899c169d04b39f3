//! Rendering: configuration, the size and encoding of images, and the order in
//! which the parts of a document are painted.
use vstd::prelude::*;

pub mod config;
pub mod document;
pub mod error;
pub mod paint;
pub mod pdf;
pub mod single;

verus! {

} // verus!
