//! Statements and schemas as values.

pub mod clause;
pub mod query;
pub mod schema;
