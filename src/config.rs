//! What one search run is asked to do, read from the argument list.
use vstd::prelude::*;
use crate::search::{matching_lines, matching_lines_folded, search, search_case_insensitive};
use crate::text::views;

verus! {

/// Why no configuration could be made.
#[derive(Clone, Copy, Debug, PartialEq, Eq, Structural)]
pub enum ConfigError {
    /// Fewer than two arguments follow the program name.
    IncompleteArguments,
}

impl ConfigError {
    /// The message shown for this error.
    pub fn message(&self) -> (r: &'static str)
        ensures
            r@ == "Arguments not complete"@,
    {
        match self {
            ConfigError::IncompleteArguments => "Arguments not complete",
        }
    }
}

/// One search: the text to look for, the file to look in, and whether case
/// counts.
#[derive(Debug)]
pub struct Config {
    pub query: String,
    pub filename: String,
    pub case_sensitive: bool,
}

impl Config {
    /// Reads the query from `args[1]` and the file name from `args[2]`;
    /// `args[0]`, the program name, and anything after `args[2]` are not
    /// read. `case_insensitive_set` tells whether the environment holds the
    /// variable `CASE_INSENSITIVE`, whatever its value: then case does not
    /// count.
    pub fn new(args: &[String], case_insensitive_set: bool) -> (r: Result<Config, ConfigError>)
        ensures
            r is Err <==> args@.len() < 3,
            r matches Err(e) ==> e == ConfigError::IncompleteArguments,
            r matches Ok(c) ==> {
                &&& c.query@ == args@[1]@
                &&& c.filename@ == args@[2]@
                &&& c.case_sensitive == !case_insensitive_set
            },
    {
        if args.len() < 3 {
            return Err(ConfigError::IncompleteArguments);
        }
        let query = args[1].clone();
        let filename = args[2].clone();
        Ok(Config { query, filename, case_sensitive: !case_insensitive_set })
    }
}

/// The lines of `contents` that `config` asks for: those that hold the
/// query, with or without regard to case as `config.case_sensitive` says.
pub fn find_matches<'a>(config: &Config, contents: &'a str) -> (r: Vec<&'a str>)
    ensures
        config.case_sensitive ==> views(r@) == matching_lines(config.query@, contents@),
        !config.case_sensitive ==> views(r@) == matching_lines_folded(config.query@, contents@),
{
    if config.case_sensitive {
        search(config.query.as_str(), contents)
    } else {
        search_case_insensitive(config.query.as_str(), contents)
    }
}

} // verus!
