//! Field alignment for line-oriented, semicolon-delimited records.
//!
//! A record is a header line, which begins with an action keyword, followed
//! by the continuation lines up to the next header. Given a cursor inside one
//! line of a record, the library finds the field of the same ordinal in the
//! other lines of that record.
//!
//! Lines are numbered from zero. A position on a line counts the characters
//! before it, from zero; a character is a Unicode scalar value. The ordinal
//! of a field is the number of delimiters before it on its line.
//!
//! - [`text`]: the characters that matter, lines, comments and keywords.
//! - [`index`]: the line index of a document and how it is built.
//! - [`field`]: the fields of one line.
//! - [`highlight`]: the answer to a highlight request on one index.
//! - [`store`]: the indexes of the open documents.

pub mod field;
pub mod highlight;
pub mod index;
pub mod store;
pub mod text;

pub use crate::field::HighlightRange;
pub use crate::highlight::{highlight, SCAN_WINDOW};
pub use crate::index::{LineIndex, LineRecord};
pub use crate::store::DocumentStore;
