//! The concrete syntax: the notation in which terms are written and read.

pub mod formatter;
pub mod grammar;
pub mod parser;
