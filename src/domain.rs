//! Root-domain scope: which hosts belong to a registrable domain, and how a
//! host's registrable domain is found.

use vstd::prelude::*;
use crate::text::{chars_end_with, chars_eq, chars_of, ends_with, lower_of, string_from_chars, to_lower};
use crate::urls::opt_view;

verus! {

/// `host` is `root` itself or a dotted subdomain of it.
pub open spec fn in_scope(host: Seq<char>, root: Seq<char>) -> bool {
    host == root || ends_with(host, seq!['.'] + root)
}

/// The scope test as the store and the crawler apply it: both sides are
/// lower-cased first.
pub open spec fn in_scope_ci(host: Seq<char>, root: Seq<char>) -> bool {
    in_scope(lower_of(host), lower_of(root))
}

/// Whether `host` is `root` or a dotted subdomain of it, case counting.
pub fn scope_matches(host: &str, root: &str) -> (r: bool)
    ensures
        r == in_scope(host@, root@),
{
    let hs = chars_of(host);
    let rs = chars_of(root);
    if chars_eq(&hs, &rs) {
        return true;
    }
    let mut suffix: Vec<char> = vec!['.'];
    let mut i: usize = 0;
    while i < rs.len()
        invariant
            i <= rs.len(),
            suffix@ == seq!['.'] + rs@.take(i as int),
        decreases rs.len() - i,
    {
        suffix.push(rs[i]);
        i += 1;
        assert(suffix@ =~= seq!['.'] + rs@.take(i as int));
    }
    assert(rs@.take(rs.len() as int) =~= rs@);
    chars_end_with(&hs, &suffix)
}

/// Whether `host` lies in the scope of `root_domain`, ignoring case.
pub fn host_in_scope(host: &str, root_domain: &str) -> (r: bool)
    ensures
        r == in_scope_ci(host@, root_domain@),
{
    let host = to_lower(host);
    let root = to_lower(root_domain);
    scope_matches(host.as_str(), root.as_str())
}

/// `host` without the final dot of a fully qualified name.
pub open spec fn without_final_dot(host: Seq<char>) -> Seq<char> {
    if host.len() > 0 && host.last() == '.' {
        host.drop_last()
    } else {
        host
    }
}

/// The registrable domain that `psl::domain_str` finds for a host by the
/// public suffix list: `None` where the host has no label above its public
/// suffix.
pub uninterp spec fn registrable_domain_of(host: Seq<char>) -> Option<Seq<char>>;

/// Relies on `psl::domain_str`, which returns the longest public suffix of the
/// host plus one label; that is a tail of the host (its final dot dropped)
/// that starts the host or follows a dot.
#[verifier::external_body]
fn psl_domain(host: &str) -> (r: Option<String>)
    ensures
        opt_view(r) == registrable_domain_of(host@),
        r matches Some(d) ==> in_scope(without_final_dot(host@), d@),
{
    psl::domain_str(host).map(|d| d.to_string())
}

/// The registrable root domain of `host` (`a.b.example.co.uk` gives
/// `example.co.uk`), or `None` for a host with nothing above its public
/// suffix (such as `co.uk`). The host lies in the scope of the root found.
pub fn extract_root_domain(host: &str) -> (r: Option<String>)
    ensures
        opt_view(r) == registrable_domain_of(host@),
        r matches Some(d) ==> in_scope(without_final_dot(host@), d@),
{
    psl_domain(host)
}

/// The subdomain label of `host` under `root`: what stands before
/// `.<root>`, when that is not empty.
pub open spec fn label_under(host: Seq<char>, root: Seq<char>) -> Option<Seq<char>> {
    if ends_with(host, seq!['.'] + root) && host.len() > root.len() + 1 {
        Some(host.subrange(0, host.len() - root.len() - 1))
    } else {
        None
    }
}

/// The subdomain label of `host` under `root` (`mail` for `mail.stack.com`
/// under `stack.com`); `None` for the root itself and for hosts outside it.
pub fn subdomain_label(host: &str, root: &str) -> (r: Option<String>)
    ensures
        opt_view(r) == label_under(host@, root@),
{
    let hs = chars_of(host);
    let rs = chars_of(root);
    let mut suffix: Vec<char> = vec!['.'];
    let mut i: usize = 0;
    while i < rs.len()
        invariant
            i <= rs.len(),
            suffix@ == seq!['.'] + rs@.take(i as int),
        decreases rs.len() - i,
    {
        suffix.push(rs[i]);
        i += 1;
        assert(suffix@ =~= seq!['.'] + rs@.take(i as int));
    }
    assert(rs@.take(rs.len() as int) =~= rs@);
    if !chars_end_with(&hs, &suffix) || hs.len() <= suffix.len() {
        return None;
    }
    let n = hs.len() - suffix.len();
    let mut label: Vec<char> = Vec::new();
    let mut j: usize = 0;
    while j < n
        invariant
            j <= n,
            n < hs@.len(),
            label@ == hs@.subrange(0, j as int),
        decreases n - j,
    {
        label.push(hs[j]);
        j += 1;
        assert(label@ =~= hs@.subrange(0, j as int));
    }
    Some(string_from_chars(&label))
}

} // verus!
