//! The runtime support surface of generated programs: prompt formatting,
//! the neutral value kinds, the decode heuristics, and the provider trait
//! that a text-generation backend implements.

pub mod llm_provider;
pub mod llm_interface;
pub mod decode;

use vstd::prelude::*;

verus! {

} // verus!
