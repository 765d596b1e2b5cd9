//! Reflows the body of a string literal so that it fits a column budget.
//!
//! The text is broken at the opportunities that the Unicode line breaking
//! algorithm allows, at punctuation where there are none, and never inside
//! the first URL of a line. Each function states what it computes over the
//! character sequence of its input; byte indices refer to the UTF-8 encoding
//! of that sequence.
//!
//! Three modules state what is taken on trust: `unicode` for the Unicode
//! data, `expressions` for regular expressions, and `chars` for the standard
//! library. Everything else is proved against them.

pub mod breaks;
pub mod chars;
pub mod comments;
pub mod expressions;
pub mod format;
pub mod laws;
pub mod markdown;
pub mod paths;
pub mod pattern;
pub mod rewrite;
pub mod shape;
pub mod splitter;
pub mod text;
pub mod unicode;
pub mod url;
