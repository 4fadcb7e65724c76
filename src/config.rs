use vstd::prelude::*;

use crate::search::{search, search_case_insensitive, search_ci_result, search_result, views};

verus! {

/// The positional argument that a command line lacked.
#[derive(Debug, Clone, Copy, PartialEq, Eq, Structural)]
pub enum MissingArgument {
    Query,
    FilePath,
}

impl MissingArgument {
    /// The message that reports this error.
    pub fn message(&self) -> (r: &'static str)
        ensures
            r@ == (match self {
                MissingArgument::Query => "Didn't get a query string"@,
                MissingArgument::FilePath => "Didn't get a file path"@,
            }),
    {
        match self {
            MissingArgument::Query => "Didn't get a query string",
            MissingArgument::FilePath => "Didn't get a file path",
        }
    }
}

/// The text to search for, the file to search in, and whether case is ignored.
#[derive(Debug, Clone)]
pub struct Config {
    pub text: String,
    pub file_path: String,
    pub ignore_case: bool,
}

impl Config {
    /// Builds a configuration from a command line whose first element is the
    /// program's name: the next two are the query and the file path, and any
    /// further ones are ignored. `ignore_case_set` tells whether the
    /// `IGNORE_CASE` variable is present in the environment.
    pub fn build(args: Vec<String>, ignore_case_set: bool) -> (r: Result<Config, MissingArgument>)
        ensures
            args@.len() < 2 ==> r == Err::<Config, MissingArgument>(MissingArgument::Query),
            args@.len() == 2 ==> r == Err::<Config, MissingArgument>(MissingArgument::FilePath),
            args@.len() > 2 <==> r is Ok,
            r matches Ok(c) ==> c.text@ == args@[1]@ && c.file_path@ == args@[2]@ && c.ignore_case
                == ignore_case_set,
    {
        if args.len() < 2 {
            return Err(MissingArgument::Query);
        }
        if args.len() < 3 {
            return Err(MissingArgument::FilePath);
        }
        let text = args[1].clone();
        let file_path = args[2].clone();
        Ok(Config { text, file_path, ignore_case: ignore_case_set })
    }

    /// The lines of `contents` that this configuration selects: those that the
    /// case-insensitive search keeps when case is ignored, else those that the
    /// plain search keeps.
    pub fn matching_lines<'a>(&self, contents: &'a str) -> (r: Vec<&'a str>)
        ensures
            views(r@) == (if self.ignore_case {
                search_ci_result(self.text@, contents@)
            } else {
                search_result(self.text@, contents@)
            }),
    {
        if self.ignore_case {
            search_case_insensitive(self.text.as_str(), contents)
        } else {
            search(self.text.as_str(), contents)
        }
    }
}

} // verus!
