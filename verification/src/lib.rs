//! Forms built from a type's shape: a tree of members whose leaves are named
//! by qualified paths, filled from raw strings and validated back into a value.

pub mod choices;
pub mod construct;
pub mod distinct;
pub mod error;
pub mod form;
pub mod laws;
pub mod members;
pub mod message;
pub mod path;
pub mod scalar;
pub mod schema;

pub use path::qualify;
