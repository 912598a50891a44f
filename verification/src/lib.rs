//! Parsing of dotenv-style configuration text: `KEY=VALUE` lines with
//! shell-like quoting, backslash escaping and `$NAME` / `${NAME}`
//! substitution, resolved against an injected environment and the
//! assignments of earlier lines.
pub mod chars;
pub mod errors;
pub mod laws;
pub mod model;
pub mod parse;
pub mod table;

pub use errors::Error;
pub use parse::{parse_line, parse_lines, parse_value, LineParser};
pub use table::{EnvMap, SubstTable};
