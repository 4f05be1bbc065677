//! Front end and evaluation core of an interpreter for a small C-family
//! expression/statement language: a lexer that turns source text into tokens,
//! a recursive-descent parser with Pratt-style (precedence-climbing)
//! expression parsing, and a tree-walking evaluator over the resulting
//! syntax tree.
//!
//! Every component is specified against a mathematical model: tokens are
//! abstracted as `TokenV`, syntax trees as `SpecNode`, and the lexer, parser
//! and evaluator are each proved to agree with a specification-level
//! function over those models. On top of those models, `render` defines a
//! text rendering for the evaluated fragment of the tree, and `roundtrip`
//! proves the round-trip law: lexing, re-parsing and evaluating a rendering
//! produces the same outcome as evaluating the tree it came from.

pub mod ast;
pub mod evaluator;
pub mod lexer;
pub mod object;
pub mod parser;
pub mod render;
pub mod roundtrip;
pub mod token;
