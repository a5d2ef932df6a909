//! Spctr: a small dynamically-typed expression language.
//!
//! A program is a single expression together with named bindings.  The
//! crate lowers the abstract syntax tree to a flat instruction stream
//! (`translator`), resolving every identifier to a lexical address, and
//! executes that stream on a stack virtual machine (`vm`) with lazy
//! top-level bindings, closures, and tail-call elimination for
//! self-recursion.

pub mod ast;
pub mod laws;
pub mod names;
pub mod translator;
pub mod stdlib;
pub mod value;
pub mod vm;
