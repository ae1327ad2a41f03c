//! Grammars with string variables and file inclusion, resolved into plain
//! grammar text.
//!
//! `syntax` splits a source text into declarations, `resolve` merges a
//! grammar and the files it pulls in into one namespace where no name is
//! defined twice, `output` renders that namespace (or a failure), `parser`
//! holds the entry points, `formatter` the text utilities, and `laws` the
//! properties proved of them.
pub mod syntax;
pub mod text;
pub mod resolve;
pub mod output;
pub mod parser;
pub mod formatter;
pub mod laws;
