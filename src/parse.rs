//! Link extraction: the anchors of an HTML page, and the origins named in a
//! `Content-Security-Policy` header.

use vstd::prelude::*;
use crate::text::{
    chars_eq, chars_of, chars_start_with, concat_chars, split, split_chars, starts_with,
    string_from_chars, strip_quote_chars, strip_quotes, words, words_of,
};
use crate::urls::{join_url, joined_url, opt_url_view, parse_url, parsed_url, UrlParts, UrlView};

verus! {

/// The `href` values of the anchors of an HTML document, in document order, as
/// the `scraper` crate finds them.
pub uninterp spec fn anchor_hrefs_of(body: Seq<char>) -> Seq<Seq<char>>;

/// Relies on `scraper::Html::parse_document` to parse the page, and on
/// `select` with the selector `a[href]` to walk, in document order, the
/// anchors that carry an `href`, whose value `attr` reads.
#[verifier::external_body]
fn anchor_hrefs(body: &str) -> (r: Vec<String>)
    ensures
        r@.map_values(|s: String| s@) == anchor_hrefs_of(body@),
{
    let document = scraper::Html::parse_document(body);
    let selector = scraper::Selector::parse("a[href]").expect("a constant, valid selector");
    document.select(&selector).map(|e| e.value().attr("href").unwrap_or_default().to_string()).collect()
}

/// An in-page (`#...`) or script (`javascript:...`) link, which leads nowhere
/// to crawl.
pub open spec fn is_inert_href(href: Seq<char>) -> bool {
    starts_with(href, "#"@) || starts_with(href, "javascript:"@)
}

/// The absolute URLs of the page's links: inert links are skipped, the rest
/// are resolved against `base`, and those that do not resolve are dropped.
pub open spec fn resolved_links(hrefs: Seq<Seq<char>>, base: Seq<char>) -> Seq<UrlView>
    decreases hrefs.len(),
{
    if hrefs.len() == 0 {
        Seq::empty()
    } else {
        let prev = resolved_links(hrefs.drop_last(), base);
        if is_inert_href(hrefs.last()) {
            prev
        } else {
            match joined_url(base, hrefs.last()) {
                Some(u) => prev.push(u),
                None => prev,
            }
        }
    }
}

/// Resolves the page's links against `base`, skipping inert ones.
pub fn resolve_links(hrefs: &Vec<String>, base: &UrlParts) -> (r: Vec<UrlParts>)
    ensures
        r@.map_values(|u: UrlParts| u@) == resolved_links(hrefs@.map_values(|s: String| s@), base@.href),
{
    let ghost hv = hrefs@.map_values(|s: String| s@);
    let hash = chars_of("#");
    let script = chars_of("javascript:");
    let mut out: Vec<UrlParts> = Vec::new();
    let mut i: usize = 0;
    assert(hv.take(0) =~= Seq::<Seq<char>>::empty());
    while i < hrefs.len()
        invariant
            i <= hrefs@.len(),
            hv == hrefs@.map_values(|s: String| s@),
            hash@ == "#"@,
            script@ == "javascript:"@,
            out@.map_values(|u: UrlParts| u@) == resolved_links(hv.take(i as int), base@.href),
        decreases hrefs@.len() - i,
    {
        assert(hv.take(i + 1).drop_last() =~= hv.take(i as int));
        assert(hv.take(i + 1).last() == hrefs@[i as int]@);
        let cs = chars_of(hrefs[i].as_str());
        if !chars_start_with(&cs, &hash) && !chars_start_with(&cs, &script) {
            match join_url(base, hrefs[i].as_str()) {
                Some(u) => {
                    out.push(u);
                    assert(out@.map_values(|u: UrlParts| u@) =~= resolved_links(hv.take(i + 1), base@.href));
                },
                None => {},
            }
        }
        i += 1;
    }
    assert(hv.take(hrefs@.len() as int) =~= hv);
    out
}

/// The absolute URLs of the anchors of `body`, resolved against `base`;
/// in-page and script links are skipped.
pub fn extract_links(body: &str, base: &UrlParts) -> (r: Vec<UrlParts>)
    ensures
        r@.map_values(|u: UrlParts| u@) == resolved_links(anchor_hrefs_of(body@), base@.href),
{
    let hrefs = anchor_hrefs(body);
    resolve_links(&hrefs, base)
}

/// The source keywords of a policy, which name no origin.
pub open spec fn is_csp_keyword(t: Seq<char>) -> bool {
    ||| t == "self"@
    ||| t == "none"@
    ||| starts_with(t, "nonce-"@)
    ||| t == "trusted-types-eval"@
    ||| t == "unsafe-eval"@
    ||| t == "wasm-unsafe-eval"@
    ||| t == "unsafe-inline"@
    ||| t == "unsafe-hashes"@
    ||| t == "inline-speculation-rules"@
    ||| t == "strict-dynamic"@
    ||| t == "report-sample"@
    ||| t == "data:"@
    ||| t == "blob:"@
    ||| t == "filesystem:"@
}

fn is_keyword(t: &Vec<char>) -> (r: bool)
    ensures
        r == is_csp_keyword(t@),
{
    chars_eq(t, &chars_of("self")) || chars_eq(t, &chars_of("none")) || chars_start_with(
        t,
        &chars_of("nonce-"),
    ) || chars_eq(t, &chars_of("trusted-types-eval")) || chars_eq(t, &chars_of("unsafe-eval"))
        || chars_eq(t, &chars_of("wasm-unsafe-eval")) || chars_eq(t, &chars_of("unsafe-inline"))
        || chars_eq(t, &chars_of("unsafe-hashes")) || chars_eq(
        t,
        &chars_of("inline-speculation-rules"),
    ) || chars_eq(t, &chars_of("strict-dynamic")) || chars_eq(t, &chars_of("report-sample"))
        || chars_eq(t, &chars_of("data:")) || chars_eq(t, &chars_of("blob:")) || chars_eq(
        t,
        &chars_of("filesystem:"),
    )
}

/// The origin a policy source names: quotes are dropped, keywords name none,
/// and what is not an absolute URL is read as a bare host over `https`.
pub open spec fn source_origin(token: Seq<char>) -> Option<UrlView> {
    let t = strip_quotes(token);
    if is_csp_keyword(t) {
        None
    } else {
        match parsed_url(t) {
            Some(u) => Some(u),
            None => parsed_url("https://"@ + t),
        }
    }
}

/// The origins named by a list of sources, in order.
pub open spec fn source_origins(tokens: Seq<Seq<char>>) -> Seq<UrlView>
    decreases tokens.len(),
{
    if tokens.len() == 0 {
        Seq::empty()
    } else {
        let prev = source_origins(tokens.drop_last());
        match source_origin(tokens.last()) {
            Some(u) => prev.push(u),
            None => prev,
        }
    }
}

/// The origins named by one directive: its first word is the directive's
/// name, the rest are its sources.
pub open spec fn directive_origins(d: Seq<char>) -> Seq<UrlView> {
    let ws = words(d);
    if ws.len() == 0 {
        Seq::empty()
    } else {
        source_origins(ws.drop_first())
    }
}

/// The origins named by a list of directives, in order.
pub open spec fn policy_origins(ds: Seq<Seq<char>>) -> Seq<UrlView>
    decreases ds.len(),
{
    if ds.len() == 0 {
        Seq::empty()
    } else {
        policy_origins(ds.drop_last()) + directive_origins(ds.last())
    }
}

fn origin_of_source(token: &Vec<char>) -> (r: Option<UrlParts>)
    ensures
        opt_url_view(r) == source_origin(token@),
{
    let t = strip_quote_chars(token);
    if is_keyword(&t) {
        return None;
    }
    match parse_url(string_from_chars(&t).as_str()) {
        Some(u) => Some(u),
        None => {
            let prefixed = concat_chars(&chars_of("https://"), &t);
            parse_url(string_from_chars(&prefixed).as_str())
        },
    }
}

fn directive_sources(d: &Vec<char>, out: &mut Vec<UrlParts>)
    ensures
        final(out)@.map_values(|u: UrlParts| u@) == old(out)@.map_values(|u: UrlParts| u@) + directive_origins(d@),
{
    let ws = words_of(d);
    let ghost wv = ws@.map_values(|v: Vec<char>| v@);
    let ghost start = out@.map_values(|u: UrlParts| u@);
    if ws.len() == 0 {
        assert(start + Seq::<UrlView>::empty() =~= start);
        return;
    }
    let ghost rest = wv.drop_first();
    let mut i: usize = 1;
    assert(rest.take(0) =~= Seq::<Seq<char>>::empty());
    assert(start + Seq::<UrlView>::empty() =~= start);
    while i < ws.len()
        invariant
            1 <= i <= ws@.len(),
            wv == ws@.map_values(|v: Vec<char>| v@),
            rest == wv.drop_first(),
            out@.map_values(|u: UrlParts| u@) == start + source_origins(rest.take(i - 1)),
        decreases ws@.len() - i,
    {
        assert(rest.take(i as int).drop_last() =~= rest.take(i - 1));
        assert(rest.take(i as int).last() == ws@[i as int]@);
        let ghost prev = source_origins(rest.take(i - 1));
        match origin_of_source(&ws[i]) {
            Some(u) => {
                let ghost uv = u@;
                out.push(u);
                assert(source_origins(rest.take(i as int)) == prev.push(uv));
                assert(out@.map_values(|u: UrlParts| u@) =~= (start + prev).push(uv));
                assert((start + prev).push(uv) =~= start + prev.push(uv));
            },
            None => {
                assert(source_origins(rest.take(i as int)) == prev);
            },
        }
        i += 1;
    }
    assert(rest.take(ws@.len() - 1) =~= rest);
}

/// The origins that a `Content-Security-Policy` header names, directive by
/// directive and source by source.
pub fn extract_csp_links(csp_header: &str) -> (r: Vec<UrlParts>)
    ensures
        r@.map_values(|u: UrlParts| u@) == policy_origins(split(csp_header@, ';')),
{
    let ds = split_chars(&chars_of(csp_header), ';');
    let ghost dv = ds@.map_values(|v: Vec<char>| v@);
    let mut out: Vec<UrlParts> = Vec::new();
    let mut i: usize = 0;
    assert(dv.take(0) =~= Seq::<Seq<char>>::empty());
    while i < ds.len()
        invariant
            i <= ds@.len(),
            dv == ds@.map_values(|v: Vec<char>| v@),
            out@.map_values(|u: UrlParts| u@) == policy_origins(dv.take(i as int)),
        decreases ds@.len() - i,
    {
        assert(dv.take(i + 1).drop_last() =~= dv.take(i as int));
        assert(dv.take(i + 1).last() == ds@[i as int]@);
        directive_sources(&ds[i], &mut out);
        i += 1;
    }
    assert(dv.take(ds@.len() as int) =~= dv);
    out
}

} // verus!
