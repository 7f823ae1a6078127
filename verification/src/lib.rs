//! The completion core of a LaTeX language server: what a cursor position asks
//! for, which names answer it, and the flat syntax-tree snapshot that a C caller
//! reads.

pub mod completion;
pub mod ffi;
pub mod laws;
pub mod names;
pub mod outside;
pub mod semantic;
pub mod syntax;
pub mod text;
