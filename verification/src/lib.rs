use vstd::prelude::*;

pub mod strutil;
pub mod compiler;
pub mod config;
pub mod runtime;
pub mod utils;

verus! {

} // verus!
