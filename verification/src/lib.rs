//! makerz: locate `Makefile.toml`, read its makerz directives, and build the
//! command line handed to cargo-make's `makers`.

pub mod caller;
pub mod cli;
pub mod directive_parser;
pub mod directive_syntax;
pub mod discovery;
pub mod error;
pub mod extend_chain;
pub mod location;
pub mod makers;
pub mod path;
pub mod text;
pub mod toml;
