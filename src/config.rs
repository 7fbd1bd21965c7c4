use vstd::prelude::*;

verus! {

/// Message returned when the argument list holds no query, or an empty one.
pub const MISSING_QUERY: &'static str = "Didn't get a query string";

/// Message returned when the argument list holds a query but no file name,
/// or an empty one.
pub const MISSING_FILENAME: &'static str = "Didn't get a file name";

/// The parameters of one search: what to look for, where, and whether letter
/// case matters. Once built, the query and the file name are never empty.
pub struct Config {
    pub query: String,
    pub filename: String,
    pub case_sensitive: bool,
}

impl Config {
    /// Well-formedness: neither the query nor the file name is empty.
    pub open spec fn wf(&self) -> bool {
        self.query@.len() > 0 && self.filename@.len() > 0
    }

    /// Builds a configuration from a full argument list. The first token (the
    /// program name) is skipped; the next two are the query and the file name,
    /// and neither may be empty.
    pub fn new(args: Vec<String>, case_sensitive: bool) -> (r: Result<Config, &'static str>)
        ensures
            r is Ok <==> (args.len() >= 3 && args[1]@.len() > 0 && args[2]@.len() > 0),
            r is Ok ==> {
                &&& r->Ok_0.query@ == args[1]@
                &&& r->Ok_0.filename@ == args[2]@
                &&& r->Ok_0.case_sensitive == case_sensitive
                &&& r->Ok_0.wf()
            },
            (args.len() <= 1 || args[1]@.len() == 0) ==> r == Err::<Config, &'static str>(
                MISSING_QUERY,
            ),
            (args.len() >= 2 && args[1]@.len() > 0 && (args.len() == 2 || args[2]@.len() == 0))
                ==> r == Err::<Config, &'static str>(MISSING_FILENAME),
    {
        if args.len() < 2 || args[1].as_str().is_empty() {
            return Err(MISSING_QUERY);
        }
        let query = args[1].clone();
        if args.len() < 3 || args[2].as_str().is_empty() {
            return Err(MISSING_FILENAME);
        }
        let filename = args[2].clone();
        Ok(Config { query, filename, case_sensitive })
    }
}

} // verus!
