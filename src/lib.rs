//! Flattening of a multi-file Rust module tree into one text, and stripping of
//! function bodies from such a text, with the scanning rules stated as spec
//! functions over character sequences.

pub mod text;
pub mod strip;
pub mod scan;
pub mod paths;
pub mod inline;
pub mod conv;
pub mod laws;
pub mod tokens;
pub mod markdown;
