use vstd::prelude::*;

pub mod text;
pub mod error;
pub mod config;
pub mod keyed;
pub mod prompts;
pub mod template;
pub mod optimizer;
pub mod json;
pub mod eval;
pub mod llm;
pub mod compiler;
pub mod values_file;
pub mod pipeline;

verus! {
}
