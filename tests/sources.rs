use subrapid::cli::{build_config, Cli, ConfigError};
use subrapid::logging::CrawlerStats;
use subrapid::sources::crtsh::CrtSh;
use subrapid::sources::dns_bruteforce::DnsBruteforce;
use subrapid::sources::wayback::WaybackArchive;

#[test]
fn crtsh_names_are_split_trimmed_and_wildcards_skipped() {
    let names = vec![
        "www.example.com\n*.example.com\n api.example.com ".to_string(),
        "www.example.com".to_string(),
        "other.org".to_string(),
    ];
    let m = CrtSh::new().collect(&names, "example.com");
    assert_eq!(m.hosts(), vec!["www.example.com".to_string(), "api.example.com".to_string()]);
    assert!(m.has_path("api.example.com", "/"));
}

#[test]
fn wayback_skips_header_and_keeps_first_url_per_host() {
    let body = r#"[["original"],
        ["http://www.example.com:80/"],
        ["http://www.example.com/later"],
        ["https://Shop.Example.com/cart?id=3"],
        ["http://elsewhere.org/"],
        ["not a url"]]"#;
    let m = WaybackArchive::new().from_response(body, "example.com").expect("valid answer");
    assert_eq!(m.hosts(), vec!["www.example.com".to_string(), "shop.example.com".to_string()]);
    assert!(m.has_path("www.example.com", "/"));
    assert!(!m.has_path("www.example.com", "/later"));
    assert!(m.has_path("shop.example.com", "/cart"));
}

#[test]
fn wayback_rejects_text_that_is_not_rows() {
    assert!(WaybackArchive::new().from_response("{\"a\": 1}", "example.com").is_none());
    let empty = WaybackArchive::new().from_response("[]", "example.com").expect("empty array");
    assert!(empty.hosts().is_empty());
}

#[test]
fn source_names() {
    assert_eq!(CrtSh::new().name(), "crt.sh");
    assert_eq!(WaybackArchive::new().name(), "Wayback Machine");
    assert_eq!(DnsBruteforce::new().name(), "dns-bruteforce");
}

fn args(url: &str, root: Option<&str>) -> Cli {
    Cli { url: url.to_string(), root_domain: root.map(|r| r.to_string()), workers: 8, max_pages_per_host: 5 }
}

#[test]
fn config_derives_root_domain_from_host() {
    let cfg = build_config(&args("https://www.stackoverflow.com/questions", None)).unwrap();
    assert_eq!(cfg.root_domain, "stackoverflow.com");
    assert_eq!(cfg.start_url.href, "https://www.stackoverflow.com/questions");
    assert_eq!(cfg.workers, 8);
    assert_eq!(cfg.max_pages_per_host, 5);
}

#[test]
fn config_lowercases_given_root_domain() {
    let cfg = build_config(&args("https://a.b.example.co.uk/", Some("Example.CO.uk"))).unwrap();
    assert_eq!(cfg.root_domain, "example.co.uk");
}

#[test]
fn config_errors() {
    assert_eq!(build_config(&args("not a url", None)).unwrap_err(), ConfigError::InvalidStartUrl);
    assert_eq!(build_config(&args("mailto:x@example.com", None)).unwrap_err(), ConfigError::MissingHost);
    assert_eq!(build_config(&args("https://co.uk/", None)).unwrap_err(), ConfigError::UnresolvableRootDomain);
}

#[test]
fn max_possible_pages_is_hosts_times_cap() {
    let s = CrawlerStats { visited_pages: 7, hosts_seen: 3, max_pages_per_host: 5 };
    assert_eq!(s.max_possible_pages(), 15);
}
