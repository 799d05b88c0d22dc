//! A whole-package semantic linter core: it indexes every module of a
//! package into a symbol table, validates name references (record fields,
//! sum-type variants, call arity, imports, module declarations) against
//! that table, and applies textual fixes for the diagnostics it can repair.
//!
//! Parsing source text into the syntax model, walking the file system and
//! rendering output are collaborators outside this library; everything here
//! works on plain values and is verified.

pub mod paths;
pub mod similarity;
pub mod symbols;
pub mod text;
pub mod diagnostics;
pub mod ast;
pub mod indexer;
pub mod discovery;
pub mod scope;
pub mod validator;
pub mod fixer;
pub mod analysis;
