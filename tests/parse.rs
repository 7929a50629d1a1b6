use subrapid::parse::{extract_csp_links, extract_links};
use subrapid::urls::{join_url, parse_url};

#[test]
fn csp_tokenizer_extracts_only_origins() {
    let links = extract_csp_links(
        "default-src 'self' https://cdn.example.com; script-src 'unsafe-inline' data:",
    );
    assert_eq!(links.len(), 1);
    assert_eq!(links[0].href, "https://cdn.example.com/");
    assert_eq!(links[0].host.as_deref(), Some("cdn.example.com"));
}

#[test]
fn csp_bare_hosts_are_read_over_https() {
    let links = extract_csp_links("img-src  img.example.com 'none'  'nonce-abc' blob: ;;");
    assert_eq!(links.len(), 1);
    assert_eq!(links[0].href, "https://img.example.com/");
}

#[test]
fn csp_directive_name_is_not_a_source() {
    assert!(extract_csp_links("https://a.example.com").is_empty());
    assert!(extract_csp_links("").is_empty());
}

#[test]
fn links_are_resolved_against_the_base() {
    let base = parse_url("https://www.example.com/dir/page").unwrap();
    let body = r##"<a href="/root">r</a><a href="rel">x</a><a>no href</a>
        <a href="#top">t</a><a href="javascript:alert(1)">j</a>
        <a href="https://blog.example.com/p?q=1">b</a>"##;
    let links = extract_links(body, &base);
    let hrefs: Vec<&str> = links.iter().map(|u| u.href.as_str()).collect();
    assert_eq!(
        hrefs,
        vec![
            "https://www.example.com/root",
            "https://www.example.com/dir/rel",
            "https://blog.example.com/p?q=1"
        ]
    );
    assert_eq!(links[2].path, "/p");
}

#[test]
fn url_parts_come_from_the_url_crate() {
    let u = parse_url("HTTPS://WWW.Example.COM:443/a/b?x#y").unwrap();
    assert_eq!(u.href, "https://www.example.com/a/b?x#y");
    assert_eq!(u.host.as_deref(), Some("www.example.com"));
    assert_eq!(u.path, "/a/b");
    assert!(parse_url("not a url").is_none());
    let j = join_url(&u, "../c").unwrap();
    assert_eq!(j.href, "https://www.example.com/c");
}
