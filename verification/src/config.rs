//! Run configuration.
//!
//! A run needs a file path, a query, and a case-sensitivity toggle. The
//! caller collects the command-line arguments and reads the environment
//! toggle; building the configuration from them is checked here: a missing
//! file path or query is a configuration error, reported before any file
//! is touched.

use vstd::prelude::*;

verus! {

/// What one run searches: the file at `file_path`, for `query`, comparing
/// case-insensitively when `ignore_case` is set.
#[derive(Debug)]
pub struct Config {
    pub file_path: String,
    pub query: String,
    pub ignore_case: bool,
}

impl Config {
    /// Builds a configuration from the raw argument list, whose first
    /// element is the program name, and the case toggle. The first two
    /// arguments after the program name are the file path and the query;
    /// whichever is missing first is the error.
    pub fn build(args: Vec<String>, ignore_case: bool) -> (r: Result<Config, &'static str>)
        ensures
            args@.len() >= 3 <==> r is Ok,
            r matches Ok(c) ==> {
                &&& c.file_path == args@[1]
                &&& c.query == args@[2]
                &&& c.ignore_case == ignore_case
            },
            args@.len() < 2 ==> (r matches Err(m) && m@ == "Didn't get a file path"@),
            args@.len() == 2 ==> (r matches Err(m) && m@ == "Didn't get a query"@),
    {
        if args.len() < 2 {
            return Err("Didn't get a file path");
        }
        if args.len() < 3 {
            return Err("Didn't get a query");
        }
        let file_path = args[1].clone();
        let query = args[2].clone();
        Ok(Config { file_path, query, ignore_case })
    }
}

} // verus!
