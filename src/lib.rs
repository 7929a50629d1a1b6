//! Subdomain discovery: a scoped result store, a crawl frontier, link and
//! policy-header extraction, and the passive sources that feed the store.

pub mod cli;
pub mod crawler;
pub mod domain;
pub mod fetch;
pub mod logging;
pub mod parse;
pub mod sources;
pub mod subdomains;
pub mod text;
pub mod urls;
