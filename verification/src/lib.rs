//! Templates of plain text and `{NAME}` placeholders, resolved against a
//! table of named string variables.
//!
//! The table is the merge of a local key/value file with the process
//! environment, the file taking precedence ([`loader`]), built once and kept
//! ([`cache`]). A template is scanned part by part ([`format`]) and its parts
//! are joined ([`render`]), which [`template`] states for whole templates; a template without any placeholder is the name of
//! a variable of the live environment. [`args`] takes the template out of the
//! tokens it arrives in.
//!
//! Every function is verified against a contract over the values that its
//! arguments stand for: a string is its sequence of characters, a table the
//! mapping from names to values.

pub mod args;
pub mod cache;
pub mod format;
pub mod loader;
pub mod render;
pub mod table;
pub mod template;
pub mod text;
