//! Conversion of a project directory into a single structured text
//! document: a rendered directory tree plus the content of every
//! non-excluded file, in one of four textual formats.
//!
//! The core of the library is the traversal state machine
//! ([`walker::Walker`]), the ignore-pattern filter ([`filter`]), the tree
//! assembler ([`tree`]) and the materialization step ([`materialize`]).
//! Formatting ([`output`]) and the optional gzip+base64 codec ([`codec`])
//! consume the core's results, and [`processor`] composes one whole
//! generate run over them.

pub mod cli;
pub mod codec;
pub mod error;
pub mod filter;
pub mod glob;
pub mod time;
pub mod materialize;
pub mod output;
pub mod naming;
pub mod paths;
pub mod processor;
pub mod root;
pub mod tree;
pub mod walker;
pub mod text;

pub use error::JockeyError;
