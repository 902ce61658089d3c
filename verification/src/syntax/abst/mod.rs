//! The abstract syntax: the notation that names every kind of term.

pub mod formatter;
pub mod grammar;
pub mod parser;
