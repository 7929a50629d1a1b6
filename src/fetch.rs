//! What a page fetch hands back.

use vstd::prelude::*;

verus! {

/// A fetched page: its body, and its `Content-Security-Policy` header when it
/// has one.
#[derive(Debug)]
pub struct FetchedPage {
    pub body: String,
    pub csp: Option<String>,
}

} // verus!
