//! Parsing of single `key<sep>value` lines into properties.
pub mod parser;
pub mod property;
pub mod text;

pub use parser::{split, try_split};
pub use property::Property;
