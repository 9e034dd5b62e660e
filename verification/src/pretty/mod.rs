//! The pretty-printer: a document is scanned item by item and rendered into lines of a
//! given width.

pub mod delim;
pub mod document;
pub mod laws;
pub mod layout;
pub mod lines;
pub mod printer;
pub mod shape;
pub mod span;
pub mod text;
