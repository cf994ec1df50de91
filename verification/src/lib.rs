//! Command-line argument parsing: tokens are classified into flag options
//! (prefixed with `/`) and values, accumulated into an option map, and a
//! list of file-extension patterns is derived from the `p` option.

pub mod model;
pub mod parser;
pub mod laws;

pub use parser::CmdLineParse;
