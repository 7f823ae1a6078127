//! What holds of the library as a whole, across its functions.

pub mod arguments;
pub mod completion;
pub mod offers;
pub mod order;
pub mod questions;
pub mod signatures;
pub mod snapshot;
pub mod tables;
pub mod text;
pub mod tree;
pub mod walk;
