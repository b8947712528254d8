pub mod verbose;

pub use verbose::{annotate_toml, format_annotation, should_annotate, Annotation};

use vstd::prelude::*;

verus! {

/// Output of the compilation stage: the optimized config and the same
/// config annotated with what the optimization changed.
#[derive(Debug, Clone)]
pub struct CompilationOutput {
    pub optimized_toml: String,
    pub verbose_toml: String,
}

} // verus!
