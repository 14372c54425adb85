//! A compiler for the small "snek" languages: S-expression programs are parsed
//! into syntax trees and compiled to x86-64 assembly text.
pub mod sexpr;
pub mod text;
pub mod error;
pub mod tagging;
pub mod runtime;
pub mod cobra;
pub mod diamondback;
