//! Progress figures that the crawl reports as it goes.

use vstd::prelude::*;

verus! {

/// A snapshot of crawl progress.
#[derive(Clone, Copy, Debug)]
pub struct CrawlerStats {
    /// Pages enqueued so far.
    pub visited_pages: usize,
    /// Hosts that have had a page enqueued.
    pub hosts_seen: usize,
    /// The per-host cap.
    pub max_pages_per_host: usize,
}

impl CrawlerStats {
    /// How many pages the hosts seen so far could have enqueued in all.
    pub fn max_possible_pages(&self) -> (r: usize)
        requires
            self.hosts_seen * self.max_pages_per_host <= usize::MAX,
        ensures
            r == self.hosts_seen * self.max_pages_per_host,
    {
        self.hosts_seen * self.max_pages_per_host
    }
}

} // verus!
