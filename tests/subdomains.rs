use subrapid::domain::{extract_root_domain, host_in_scope, subdomain_label};
use subrapid::subdomains::SubdomainMap;
use subrapid::urls::{parse_url, UrlParts};

fn url(s: &str) -> UrlParts {
    parse_url(s).expect("test URL parses")
}

#[test]
fn test_extract_root_domain_basic() {
    assert_eq!(
        extract_root_domain("www.stackoverflow.com").as_deref(),
        Some("stackoverflow.com")
    );
    assert_eq!(
        extract_root_domain("stackoverflow.com").as_deref(),
        Some("stackoverflow.com")
    );
}

#[test]
fn test_extract_root_domain_multi_tld() {
    assert_eq!(
        extract_root_domain("a.b.example.co.uk").as_deref(),
        Some("example.co.uk")
    );
    assert_eq!(
        extract_root_domain("example.co.uk").as_deref(),
        Some("example.co.uk")
    );
}

#[test]
fn bare_public_suffix_has_no_root_domain() {
    assert_eq!(extract_root_domain("co.uk"), None);
}

#[test]
fn scope_is_exact_or_dotted_suffix_ignoring_case() {
    assert!(host_in_scope("example.com", "example.com"));
    assert!(host_in_scope("sub.example.com", "example.com"));
    assert!(host_in_scope("WWW.Example.COM", "example.com"));
    assert!(host_in_scope("a.b.example.com", "EXAMPLE.com"));
    assert!(!host_in_scope("other.com", "example.com"));
    assert!(!host_in_scope("example.org", "example.com"));
    assert!(!host_in_scope("sub.example.org", "example.com"));
    assert!(!host_in_scope("notexample.com", "example.com"));
}

#[test]
fn add_out_of_scope_leaves_store_unchanged() {
    let mut m = SubdomainMap::new();
    assert!(!m.add_url(&url("https://other.org/x"), "example.com"));
    assert!(!m.add_url(&url("https://example.org/"), "example.com"));
    assert!(!m.add_url(&url("mailto:someone@example.com"), "example.com"));
    assert!(m.hosts().is_empty());
}

#[test]
fn add_reports_new_hosts_once() {
    let mut m = SubdomainMap::new();
    assert!(m.add_url(&url("https://blog.example.com/post"), "example.com"));
    assert!(!m.add_url(&url("https://blog.example.com/other"), "example.com"));
    assert!(m.add_url(&url("https://example.com/about"), "example.com"));
    assert!(m.has_path("blog.example.com", "/post"));
    assert!(m.has_path("blog.example.com", "/other"));
    assert!(m.has_path("example.com", "/about"));
    assert_eq!(m.hosts(), vec!["blog.example.com".to_string(), "example.com".to_string()]);
}

#[test]
fn add_strips_query_and_fragment_and_lowercases_host() {
    let mut m = SubdomainMap::new();
    assert!(m.add_url(&url("https://API.Example.com/v1?key=1#top"), "example.com"));
    assert!(m.has_path("api.example.com", "/v1"));
    assert!(!m.has_path("api.example.com", "/v1?key=1#top"));
    assert_eq!(m.hosts(), vec!["api.example.com".to_string()]);
}

#[test]
fn adding_twice_equals_adding_once() {
    let mut once = SubdomainMap::new();
    once.add_url(&url("https://a.example.com/p?x=1"), "example.com");
    let mut twice = SubdomainMap::new();
    twice.add_url(&url("https://a.example.com/p?x=1"), "example.com");
    assert!(!twice.add_url(&url("https://a.example.com/p#frag"), "example.com"));
    assert_eq!(once.hosts(), twice.hosts());
    assert!(twice.has_path("a.example.com", "/p"));
    assert!(once.has_path("a.example.com", "/p"));
}

fn store(urls: &[&str]) -> SubdomainMap {
    let mut m = SubdomainMap::new();
    for u in urls {
        m.add_url(&url(u), "example.com");
    }
    m
}

fn pairs(m: &SubdomainMap) -> Vec<(String, String)> {
    let mut out = Vec::new();
    for h in m.hosts() {
        for p in ["/", "/a", "/b", "/c", "/d"] {
            if m.has_path(&h, p) {
                out.push((h.clone(), p.to_string()));
            }
        }
    }
    out.sort();
    out
}

#[test]
fn merge_is_commutative_and_associative() {
    let a = || store(&["https://x.example.com/a", "https://example.com/"]);
    let b = || store(&["https://x.example.com/b", "https://y.example.com/c"]);
    let c = || store(&["https://y.example.com/d", "https://example.com/a"]);

    let mut ab = a();
    ab.merge_from(b());
    let mut ba = b();
    ba.merge_from(a());
    assert_eq!(pairs(&ab), pairs(&ba));

    let mut bc = b();
    bc.merge_from(c());
    let mut a_bc = a();
    a_bc.merge_from(bc);
    let mut ab_c = a();
    ab_c.merge_from(b());
    ab_c.merge_from(c());
    assert_eq!(pairs(&a_bc), pairs(&ab_c));
    assert_eq!(pairs(&a_bc).len(), 6);
}

#[test]
fn merge_with_a_copy_of_itself_changes_nothing() {
    let mut a = store(&["https://x.example.com/a", "https://example.com/"]);
    a.merge_from(store(&["https://x.example.com/a", "https://example.com/"]));
    assert_eq!(
        pairs(&a),
        vec![
            ("example.com".to_string(), "/".to_string()),
            ("x.example.com".to_string(), "/a".to_string())
        ]
    );
}

#[test]
fn hosts_under_lists_sorted_subdomains_only() {
    let m = store(&[
        "https://www.example.com/",
        "https://example.com/",
        "https://a.example.com/",
        "https://a-b.example.com/",
        "https://mail.example.com/",
    ]);
    assert_eq!(
        m.hosts_under("example.com"),
        vec![
            "a-b.example.com".to_string(),
            "a.example.com".to_string(),
            "mail.example.com".to_string(),
            "www.example.com".to_string()
        ]
    );
}

#[test]
fn subdomain_label_is_what_precedes_the_root() {
    assert_eq!(subdomain_label("mail.stack.com", "stack.com").as_deref(), Some("mail"));
    assert_eq!(subdomain_label("a.b.stack.com", "stack.com").as_deref(), Some("a.b"));
    assert_eq!(subdomain_label("stack.com", "stack.com"), None);
    assert_eq!(subdomain_label("notstack.com", "stack.com"), None);
}

#[test]
fn paths_of_lists_each_path_once() {
    let m = store(&["https://x.example.com/a", "https://x.example.com/b?q", "https://x.example.com/a#f"]);
    let mut paths = m.paths_of("x.example.com");
    paths.sort();
    assert_eq!(paths, vec!["/a".to_string(), "/b".to_string()]);
    assert!(m.paths_of("y.example.com").is_empty());
}

#[test]
fn clone_holds_the_same_hosts_and_paths() {
    let m = store(&["https://x.example.com/a", "https://example.com/"]);
    let c = m.clone();
    assert_eq!(pairs(&c), pairs(&m));
}
