//! A verified front end for a small expression-oriented language: a
//! position-tracking lexer, a recursive-descent parser that builds a
//! span-annotated abstract syntax tree, and a scope-resolving type checker
//! that produces a typed intermediate representation for a code generator to
//! consume.
//!
//! Source text is handled as a byte buffer. No node of the syntax tree owns
//! text: every name and lexeme is a [`Span`] into the original buffer, so
//! the exact source of any node can be recovered by re-slicing.
//!
//! The pipeline is three sequential passes, each producing an immutable
//! artifact for the next: [`parser::tokenize`] turns bytes into spanned
//! tokens, [`parser::parse_root_module`] builds the syntax tree, and
//! [`typecheck::typecheck_root_module`] resolves scopes and types and emits
//! the typed tree of [`ir`]. Each pass carries a contract that pins its
//! behaviour to the spec functions beside it.

pub mod ast;
pub mod diagnostics;
pub mod environment_builder;
pub mod ir;
pub mod lexer;
pub mod parser;
pub mod typecheck;

pub use lexer::Span;

