//! Front end of a compiler for a Ruby-like language.
//!
//! Source text is turned into tokens (`parse::tokenize`), tokens into a
//! syntax tree (`parse::parser`), and the syntax tree into a flat,
//! identifier-indexed program in which every superclass reference has been
//! resolved against the enclosing scopes (`ir::build`).
//!
//! A syntax tree can be turned back into tokens (`parse::unparse`) and
//! text (`parse::render`); parsing that text gives the tree back
//! (`parse::round_trip`).
pub mod text;
pub mod ast;
pub mod parse;
pub mod ir;
