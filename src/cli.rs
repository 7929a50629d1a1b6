//! Turning the command-line settings into a discovery configuration.

use vstd::prelude::*;
use crate::domain::{extract_root_domain, registrable_domain_of};
use crate::sources::DiscoveryConfig;
use crate::text::{lower_of, to_lower};
use crate::urls::{parse_url, parsed_url};

verus! {

/// The settings a run is given.
#[derive(Debug)]
pub struct Cli {
    /// The starting URL (e.g. `https://example.com`).
    pub url: String,
    /// The root domain to keep to; derived from the URL's host when absent.
    pub root_domain: Option<String>,
    /// How many workers crawl at once.
    pub workers: usize,
    /// How many pages of one host a crawl may enqueue.
    pub max_pages_per_host: usize,
}

/// Why no configuration can be built; discovery does not start.
#[derive(Debug, PartialEq, Eq, Structural)]
pub enum ConfigError {
    /// The starting URL does not parse.
    InvalidStartUrl,
    /// The starting URL has no host.
    MissingHost,
    /// No root domain was given and the host has none by the public suffix
    /// list.
    UnresolvableRootDomain,
}

/// The configuration for `args`: the starting URL parsed, and the root domain
/// given (lower-cased) or else the registrable domain of the lower-cased host.
pub fn build_config(args: &Cli) -> (r: Result<DiscoveryConfig, ConfigError>)
    ensures
        match parsed_url(args.url@) {
            None => r == Err::<DiscoveryConfig, ConfigError>(ConfigError::InvalidStartUrl),
            Some(u) => match u.host {
                None => r == Err::<DiscoveryConfig, ConfigError>(ConfigError::MissingHost),
                Some(h) => match args.root_domain {
                    Some(rd) => r matches Ok(cfg) && cfg.start_url@ == u && cfg.root_domain@ == lower_of(rd@)
                        && cfg.workers == args.workers && cfg.max_pages_per_host == args.max_pages_per_host,
                    None => match registrable_domain_of(lower_of(h)) {
                        None => r == Err::<DiscoveryConfig, ConfigError>(ConfigError::UnresolvableRootDomain),
                        Some(d) => r matches Ok(cfg) && cfg.start_url@ == u && cfg.root_domain@ == d
                            && cfg.workers == args.workers && cfg.max_pages_per_host == args.max_pages_per_host,
                    },
                },
            },
        },
{
    let start_url = match parse_url(args.url.as_str()) {
        Some(u) => u,
        None => return Err(ConfigError::InvalidStartUrl),
    };
    let host = match &start_url.host {
        Some(h) => to_lower(h.as_str()),
        None => return Err(ConfigError::MissingHost),
    };
    let root_domain = match &args.root_domain {
        Some(rd) => to_lower(rd.as_str()),
        None => match extract_root_domain(host.as_str()) {
            Some(d) => d,
            None => return Err(ConfigError::UnresolvableRootDomain),
        },
    };
    Ok(DiscoveryConfig {
        start_url,
        root_domain,
        workers: args.workers,
        max_pages_per_host: args.max_pages_per_host,
    })
}

} // verus!
