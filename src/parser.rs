//! The grammar value and the entry point that turns it into plain grammar text.
use vstd::prelude::*;
use std::collections::HashMap;
use crate::output::{message_text, render, build_grammar};
use crate::resolve::{resolve_source, resolve_spec, Cause, ErrorCause, SourceFile};
use crate::text::{chars_of, string_of};

verus! {

/// Identity given to a grammar that was not reached through a file directive.
pub const DEFAULT_GRAMMAR_ID: &'static str = "this";

/// A grammar to resolve: its text and the identity its definitions are
/// reported under. `variables` holds overrides that resolution does not use.
pub struct Grammar {
    pub source: String,
    pub variables: HashMap<String, String>,
    pub id: String,
}

impl Grammar {
    /// A root grammar with the given text.
    pub fn from_source(source: &str) -> (r: Grammar)
        ensures
            r.source@ == source@,
            r.id@ == DEFAULT_GRAMMAR_ID@,
            r.variables@ == Map::<String, String>::empty(),
    {
        Grammar {
            source: source.to_owned(),
            variables: HashMap::new(),
            id: DEFAULT_GRAMMAR_ID.to_owned(),
        }
    }
}

/// Resolves `grammar`, pulling in the files it names from `files`, and
/// renders the merged namespace as grammar text; on failure, the message
/// that describes it.
pub fn compile_grammar(grammar: Grammar, files: &Vec<SourceFile>) -> (r: Result<String, String>)
    ensures
        match resolve_spec(files@, grammar.source@, grammar.id@) {
            Ok(defs) => r matches Ok(t) && t@ == render(defs),
            Err(f) => r matches Err(m) && m@ == message_text(f),
        },
{
    let src = chars_of(grammar.source.as_str());
    let id = chars_of(grammar.id.as_str());
    let mut stack: Vec<usize> = Vec::new();
    match resolve_source(files, &mut stack, &src, &id) {
        Ok(defs) => {
            let t = build_grammar(&defs);
            Ok(string_of(&t))
        },
        Err(e) => {
            let m = e.message();
            Err(string_of(&m))
        },
    }
}


/// The path of the file whose absence stops the resolution of `grammar`, if
/// that is what stops it. A caller that reads files on demand adds that file
/// to `files` and asks again.
pub fn missing_file(grammar: &Grammar, files: &Vec<SourceFile>) -> (r: Option<String>)
    ensures
        match resolve_spec(files@, grammar.source@, grammar.id@) {
            Err(f) => match f.cause {
                Cause::Missing { path, .. } => r matches Some(p) && p@ == path,
                _ => r is None,
            },
            Ok(_) => r is None,
        },
{
    let src = chars_of(grammar.source.as_str());
    let id = chars_of(grammar.id.as_str());
    let mut stack: Vec<usize> = Vec::new();
    match resolve_source(files, &mut stack, &src, &id) {
        Ok(_) => None,
        Err(e) => match &e.cause {
            ErrorCause::Missing { path, .. } => Some(string_of(path)),
            _ => None,
        },
    }
}

} // verus!
