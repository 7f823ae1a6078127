//! What the names in a document mean.

pub mod bundle;
pub mod model;
pub mod raw;
pub mod signature;
