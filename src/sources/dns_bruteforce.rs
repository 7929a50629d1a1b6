//! A source that would resolve candidate names under the root domain.

use vstd::prelude::*;

verus! {

/// Discovery by resolving candidate names; it finds nothing yet.
#[derive(Debug)]
pub struct DnsBruteforce;

impl DnsBruteforce {
    pub fn new() -> (r: DnsBruteforce) {
        DnsBruteforce
    }

    /// The source's name.
    pub fn name(&self) -> (r: &'static str)
        ensures
            r@ == "dns-bruteforce"@,
    {
        "dns-bruteforce"
    }
}

} // verus!
