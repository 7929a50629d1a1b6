//! Discovery sources: the settings they share, and the logic each one runs on
//! what its service answered.

pub mod crtsh;
pub mod dns_bruteforce;
pub mod wayback;

use vstd::prelude::*;
use crate::subdomains::{add_view, SubdomainMap};
use crate::text::chars_of;
use crate::urls::{parsed_url, UrlParts};

verus! {

/// Settings shared by every discovery source.
#[derive(Clone, Debug)]
pub struct DiscoveryConfig {
    /// The page the crawl starts from.
    pub start_url: UrlParts,
    /// The root domain that discovery keeps to (lower case).
    pub root_domain: String,
    /// How many workers crawl at once.
    pub workers: usize,
    /// How many pages of one host a crawl may enqueue.
    pub max_pages_per_host: usize,
}

/// The store after recording `https://<domain>`, when that parses.
pub open spec fn add_domain(
    m: Map<Seq<char>, Set<Seq<char>>>,
    domain: Seq<char>,
    root: Seq<char>,
) -> Map<Seq<char>, Set<Seq<char>>> {
    match parsed_url("https://"@ + domain) {
        Some(u) => add_view(m, u, root),
        None => m,
    }
}

/// Records `https://<domain>` in `map`, when that parses.
pub fn add_bare_domain(map: &mut SubdomainMap, domain: &Vec<char>, root_domain: &str)
    requires
        old(map).wf(),
    ensures
        final(map).wf(),
        final(map)@ == add_domain(old(map)@, domain@, root_domain@),
{
    let url = crate::text::concat_chars(&chars_of("https://"), domain);
    match crate::urls::parse_url(crate::text::string_from_chars(&url).as_str()) {
        Some(u) => {
            map.add_url(&u, root_domain);
        },
        None => {},
    }
}

} // verus!
