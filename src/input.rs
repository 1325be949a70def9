//! A search request built from the command line, and the search it selects.
use vstd::prelude::*;
use crate::lines::views_of;
use crate::search::{search, search_case_insensitive, search_folded_spec, search_spec};

verus! {

/// The message for a command line that names no query.
pub const MISSING_QUERY: &'static str = "Didn't get a query string";

/// The message for a command line that names a query but no file.
pub const MISSING_FILENAME: &'static str = "Didn't get a filename string";

/// What to search for, where, and under which case policy.
pub struct Input {
    pub query: String,
    pub filename: String,
    pub case_sensitive: bool,
}

impl Input {
    /// Builds a request from the positional arguments (the program's own name
    /// left out): the query first, then the file name; any further arguments
    /// are ignored. `case_sensitive` says whether the case-sensitivity toggle
    /// is set.
    pub fn new(args: Vec<String>, case_sensitive: bool) -> (r: Result<Input, &'static str>)
        ensures
            args@.len() == 0 ==> r == Err::<Input, &'static str>(MISSING_QUERY),
            args@.len() == 1 ==> r == Err::<Input, &'static str>(MISSING_FILENAME),
            args@.len() >= 2 ==> (r matches Ok(input) && input.query == args@[0]
                && input.filename == args@[1] && input.case_sensitive == case_sensitive),
    {
        let mut args = args;
        if args.len() == 0 {
            return Err(MISSING_QUERY);
        }
        if args.len() == 1 {
            return Err(MISSING_FILENAME);
        }
        let filename = args.remove(1);
        let query = args.remove(0);
        Ok(Input { query, filename, case_sensitive })
    }
}

/// Runs the search that `input` asks for over `contents`: the exact one when
/// the request is case-sensitive, the case-folded one otherwise.
pub fn find_matches<'a>(input: &Input, contents: &'a str) -> (r: Vec<&'a str>)
    ensures
        views_of(r@) == if input.case_sensitive {
            search_spec(input.query@, contents@)
        } else {
            search_folded_spec(input.query@, contents@)
        },
{
    if input.case_sensitive {
        search(input.query.as_str(), contents)
    } else {
        search_case_insensitive(input.query.as_str(), contents)
    }
}

} // verus!
