//! A small virtual machine whose values live in a flat byte memory, with the
//! byte encodings of its value types.

pub mod byteable;
pub mod data;
pub mod vm;
pub mod laws;
pub mod semantics;
