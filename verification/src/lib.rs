//! Build-time logic of a framework for writing browser extensions in Rust:
//! reading extension metadata out of attributes, parsing the attribute
//! arguments, and generating the extension manifest.
pub mod json;
pub mod text;
pub mod metadata;
pub mod names;
pub mod manifest;
pub mod tokens;
pub mod args;
pub mod source;
pub mod cli;
pub mod lockfile;
