//! Middle-end and backend of a compiler that lowers a statically scoped
//! procedural language (variables, lists, structs, enums, procedures,
//! events, messages) to the flat block-graph form used by a visual
//! block-programming runtime.
//!
//! The work happens in three stages: a scope pass that collects variable
//! declarations, a resolution pass that rewrites the tree (constant
//! folding, operator desugaring, struct-assignment expansion) while
//! recording every referenced name, and an emitter that serializes the
//! rewritten tree into uniquely identified, parent-linked block nodes.

pub mod ast;
pub mod emit;
pub mod numeric;
pub mod qualify;
pub mod resolve;
pub mod scope;
