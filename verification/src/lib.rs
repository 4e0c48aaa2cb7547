//! A toy expression language built around a Pratt parser: a lexer that
//! turns source text into token trees, a parser that turns token trees into
//! an abstract syntax tree, and an evaluator for that tree.
//!
//! - `token`, `text`, `lexer`: tokens and their renderings; the lexer.
//! - `ast`, `parser`, `display`: the syntax tree, the parser, and the
//!   textual rendering of trees.
//! - `num`, `value`, `compare`, `scope`: integers, values, comparisons,
//!   and variable frames.
//! - `semantics`: what evaluation means, as a definitional interpreter.
//! - `runtime`, `eval`: the interpreter's state and the evaluator, proved
//!   to compute what `semantics` defines.
//! - `laws`: properties of evaluation as a whole.

pub mod text;
pub mod token;
pub mod lexer;
pub mod ast;
pub mod parser;
pub mod display;
pub mod num;
pub mod value;
pub mod compare;
pub mod scope;
pub mod semantics;
pub mod runtime;
pub mod eval;
pub mod laws;
