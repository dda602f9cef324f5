//! The capability a text-generation backend offers: one synchronous call
//! from a prompt to a reply.

use vstd::prelude::*;

verus! {

/// An error from a backend: what went wrong, as text.
#[derive(Debug, Clone)]
pub struct LlmError {
    pub message: String,
}

/// A source of generated text. A real backend makes a network call; a test
/// hands back canned replies. Nothing is assumed of the reply: callers must
/// hold for every text that may come back.
pub trait LlmProvider {
    fn generate(&self, prompt: &str) -> Result<String, LlmError>;
}

} // verus!
