//! Kosame: the pretty-printer for macro invocations, the representation of statements and
//! schemas, and the bookkeeping around them.

pub mod fmt;
pub mod parent_map;
pub mod pretty;
pub mod repr;
pub mod sql;
pub mod statement;
