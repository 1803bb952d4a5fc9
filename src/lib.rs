//! Recognises structured log lines (compact JSON objects and `key=value`
//! logfmt lines) and re-emits them with ANSI styling on keys and values,
//! leaving every character of the line in place.
pub mod format;
pub mod styling;
mod text;
