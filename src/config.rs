use vstd::prelude::*;
use vstd::string::StringExecFns;
use crate::entry::Entry;
use crate::session::Authentication;

verus! {

/// The endpoint used where the configuration names none.
pub const DEFAULT_URL: &'static str = "http://localhost:9091/transmission/rpc";

/// The number of requests in flight where the configuration sets none.
pub const DEFAULT_CONCURRENCY: usize = 4;

/// The whole configuration of one run.
pub struct Config {
    pub url: Option<String>,
    pub auth: Authentication,
    pub concurrency: Option<usize>,
    pub root: Entry,
}

/// The endpoint named by `url`, or the default one.
pub open spec fn rpc_url_of(url: Option<String>) -> Seq<char> {
    match url {
        Some(u) => u@,
        None => DEFAULT_URL@,
    }
}

/// The bound on requests in flight that `concurrency` sets; none and zero
/// both mean the default.
pub open spec fn concurrency_limit_of(concurrency: Option<usize>) -> usize {
    match concurrency {
        Some(c) => if c != 0 {
            c
        } else {
            DEFAULT_CONCURRENCY
        },
        None => DEFAULT_CONCURRENCY,
    }
}

impl Config {
    /// The endpoint of the daemon.
    pub fn rpc_url(&self) -> (r: String)
        ensures
            r@ == rpc_url_of(self.url),
    {
        match &self.url {
            Some(u) => u.clone(),
            None => String::from_str(DEFAULT_URL),
        }
    }

    /// The bound on requests in flight.
    pub fn concurrency_limit(&self) -> (r: usize)
        ensures
            r == concurrency_limit_of(self.concurrency),
            r > 0,
    {
        match self.concurrency {
            Some(c) => if c != 0 {
                c
            } else {
                DEFAULT_CONCURRENCY
            },
            None => DEFAULT_CONCURRENCY,
        }
    }
}

} // verus!
