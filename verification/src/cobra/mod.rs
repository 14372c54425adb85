//! The Cobra compiler: expressions with numbers, booleans, `let`, `if`,
//! blocks, loops and assignment, compiled to x86-64 assembly.
pub mod syntax;
pub mod parse;
pub mod machine;
pub mod env;
pub mod compile;
pub mod labels;
pub mod frame;
pub mod meaning;
