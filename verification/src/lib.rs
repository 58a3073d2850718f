//! A declarative command-line argument parser.
//!
//! A caller registers argument declarations (positional, required-named,
//! optional-named), then hands the raw argument vector to [`parser::ArgumentParser::parse_args`],
//! which either resolves every declaration to a typed value, reports that help
//! was requested, or fails with a descriptive error. The whole parse is
//! specified by the spec functions in [`model`] and proved against them.

pub mod laws;
pub mod model;
pub mod parser;
pub mod table;
pub mod text;
pub mod value;
