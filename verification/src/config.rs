//! The run configuration: query, file name and case sensitivity, built from
//! the raw command-line argument list.

use vstd::prelude::*;

verus! {

/// Why a configuration could not be built.
#[derive(Debug, PartialEq, Eq, Structural)]
pub enum ConfigError {
    /// Fewer than two positional arguments (query, file name) were supplied.
    InsufficientArguments,
}

/// What one run searches for and where: the query, the file to read, and
/// whether matching is case-sensitive.
pub struct Config {
    pub query: String,
    pub filename: String,
    pub case_sensitive: bool,
}

impl Config {
    /// Builds a configuration from the argument list. The first entry is the
    /// program name and is ignored; the next two are the query and the file
    /// name. `case_insensitive` reports whether the environment toggle that
    /// switches matching to case-insensitive is set; reading the environment
    /// is the caller's business.
    pub fn new(args: &[String], case_insensitive: bool) -> (r: Result<Config, ConfigError>)
        ensures
            args@.len() < 3 ==> r == Result::<Config, ConfigError>::Err(
                ConfigError::InsufficientArguments,
            ),
            args@.len() >= 3 ==> {
                &&& r is Ok
                &&& r->Ok_0.query@ == args@[1]@
                &&& r->Ok_0.filename@ == args@[2]@
                &&& r->Ok_0.case_sensitive == !case_insensitive
            },
    {
        if args.len() < 3 {
            return Err(ConfigError::InsufficientArguments);
        }
        let query = args[1].clone();
        let filename = args[2].clone();
        Ok(Config { query, filename, case_sensitive: !case_insensitive })
    }
}

} // verus!
