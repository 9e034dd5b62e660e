//! Writing values out as SQL.

pub mod fmt_sql;
pub mod formatter;
