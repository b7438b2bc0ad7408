//! The rules of the `synapsectl` command line: what its arguments mean, what
//! its commands do and what they print.

pub mod commands;
pub mod parse;
pub mod report;
