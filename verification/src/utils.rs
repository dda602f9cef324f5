//! Shared data structures of the compiler.

pub mod ast;

use vstd::prelude::*;

verus! {

} // verus!
