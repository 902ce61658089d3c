//! An untyped functional calculus with constructors, pattern matching and
//! unrestricted recursion, together with a canonical encoding of its terms
//! as data of the calculus itself.

pub mod syntax;
pub mod semantic;
pub mod bootstrapping;
