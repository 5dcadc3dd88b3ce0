//! Front end for a small layout-sensitive language: a scanner that turns
//! source text into tokens, and a parser that folds those tokens into a tree
//! one step at a time.

pub mod parsing;
pub mod position;
pub mod tokenising;
