pub mod field;
pub mod fences;
pub mod instruction;
pub mod bootstrap;
pub mod run;
pub mod instruction_search;
pub mod mipro;

pub use field::OptimizableField;
pub use fences::strip_code_fences;
