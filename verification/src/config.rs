//! The search configuration and the errors a search can end with.
//!
//! A configuration is built once from the program arguments and from
//! whether the case-insensitivity toggle is present in the environment,
//! and is never changed afterwards.

use vstd::prelude::*;
use crate::matcher::{search_lines, search_spec};

verus! {

/// The ways a search can fail, with a diagnostic for each.
#[derive(Debug)]
pub enum SearchError {
    /// Fewer than three program arguments were given (program name,
    /// query, filename).
    NotEnoughArguments,
    /// The named file could not be opened; the cause's message is kept.
    FileOpen(String),
    /// The named file could not be read as text; the cause's message is
    /// kept.
    FileRead(String),
}

impl SearchError {
    /// A human-readable diagnostic line for this error.
    pub fn message(&self) -> (r: String)
        ensures
            self is NotEnoughArguments ==> r@ == "not enough arguments"@,
            self is FileOpen ==> r@ == self->FileOpen_0@,
            self is FileRead ==> r@ == self->FileRead_0@,
    {
        match self {
            SearchError::NotEnoughArguments => "not enough arguments".to_owned(),
            SearchError::FileOpen(cause) => cause.clone(),
            SearchError::FileRead(cause) => cause.clone(),
        }
    }
}

/// An immutable search configuration: what to look for, where, and under
/// which case policy.
#[derive(Debug)]
pub struct Config {
    pub query: String,
    pub filename: String,
    pub case_sensitive: bool,
}

impl Config {
    /// Builds the configuration from the program arguments (the first
    /// being the invocation name) and from whether the environment's
    /// case-insensitivity toggle is present. The second argument becomes
    /// the query, the third the filename; arguments past those are
    /// ignored. Fails exactly when fewer than three arguments are given.
    pub fn new(args: &Vec<String>, case_insensitive: bool) -> (r: Result<Config, SearchError>)
        ensures
            r is Ok <==> args@.len() >= 3,
            r is Ok ==> {
                &&& r->Ok_0.query@ == args@[1]@
                &&& r->Ok_0.filename@ == args@[2]@
                &&& r->Ok_0.case_sensitive == !case_insensitive
            },
            r is Err ==> r->Err_0 is NotEnoughArguments,
    {
        if args.len() < 3 {
            return Err(SearchError::NotEnoughArguments);
        }
        let query = args[1].clone();
        let filename = args[2].clone();
        Ok(Config { query, filename, case_sensitive: !case_insensitive })
    }

    /// The search this configuration selects, run over the file's
    /// contents: the lines containing the query, verbatim when
    /// case-sensitive, up to the ASCII case fold otherwise.
    pub fn search<'a>(&self, contents: &'a str) -> (r: Vec<&'a str>)
        ensures
            r.deep_view() == search_spec(self.query@, contents@, self.case_sensitive),
    {
        search_lines(self.query.as_str(), contents, self.case_sensitive)
    }
}

} // verus!
