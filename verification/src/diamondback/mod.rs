//! The Diamondback compiler: Cobra extended with function definitions,
//! calls and `print`, compiled to x86-64 assembly with frame pointers.
pub mod syntax;
pub mod parse;
pub mod machine;
pub mod env;
pub mod compile;
pub mod frame;
pub mod labels;
pub mod calls;
pub mod meaning;
