//! The two programs do what the library does: the substitution program
//! substitutes, and the interpreter program evaluates, on encoded terms.

pub mod binding;
pub mod calls;
pub mod data;
pub mod finding;
pub mod frames;
pub mod interpretation;
pub mod laws;
pub mod lists;
pub mod numbers;
pub mod replacing;
pub mod rewrite;
pub mod running;
pub mod shapes;
pub mod substitution;
pub mod words;
