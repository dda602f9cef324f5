//! Backend configuration: where the text-generation service listens and
//! which model it serves. Reading the environment happens outside the
//! verified library; here stand the type and its defaults.

use vstd::prelude::*;

verus! {

#[derive(Debug, Clone)]
pub struct Config {
    pub ollama_base_url: String,
    pub ollama_model: String,
}

impl Default for Config {
    /// The fixed fallback configuration: a local backend and its default
    /// model.
    fn default() -> (r: Config)
        ensures
            r.ollama_base_url@ == "http://localhost:11434"@,
            r.ollama_model@ == "llama3.1"@,
    {
        Config {
            ollama_base_url: "http://localhost:11434".to_owned(),
            ollama_model: "llama3.1".to_owned(),
        }
    }
}

} // verus!
