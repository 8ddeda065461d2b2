//! Search query handling.
pub mod parser;
pub mod fuzzy;
