//! A printf-like templating engine whose output is a structured document.
//!
//! A template such as `{name: %q, tags: [%*q]}` is filled with positional
//! values, named values (`NAME=VALUE`), file contents or chunks of an
//! external stream, and the resulting text is then read as YAML and written
//! back out as JSON or YAML.
//!
//! Everything that touches the outside world (the stream, the file system,
//! the process arguments) is supplied by the caller: the engine asks for what
//! it is missing through [`Step::Need`] and is simply run again once the
//! answer has been added to its [`Inputs`]; the `replay` module proves that
//! this gives what reading the input on demand would give.

pub mod cli;
pub mod document;
pub mod error;
pub mod laws;
pub mod outside;
pub mod quote;
pub mod replay;
pub mod scan;
pub mod source;
pub mod text;

pub use cli::{parse_and_process, Cli, Format};
pub use error::Failure;
pub use scan::{format_partial, render, Partial};
pub use source::{Inputs, Request, Step};
