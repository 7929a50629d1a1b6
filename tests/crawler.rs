use subrapid::crawler::{CrawlerState, WorkItem};
use subrapid::parse::extract_links;
use subrapid::urls::{parse_url, UrlParts};

fn url(s: &str) -> UrlParts {
    parse_url(s).expect("test URL parses")
}

fn take_url(st: &mut CrawlerState) -> UrlParts {
    match st.take_work() {
        WorkItem::Url(u) => u,
        WorkItem::Wait => panic!("expected a page, got wait"),
        WorkItem::Done => panic!("expected a page, got done"),
    }
}

#[test]
fn one_crawl_step_records_in_scope_links() {
    let seed = url("https://www.example.com/");
    let mut st = CrawlerState::new(seed, 5);
    let page = take_url(&mut st);
    assert_eq!(page.href, "https://www.example.com/");
    let body = r##"<html><body>
        <a href="https://blog.example.com/post">blog</a>
        <a href="https://example.com/about">about</a>
        <a href="https://other.org/x">other</a>
        <a href="#frag">frag</a>
        <a href="javascript:void(0)">js</a>
    </body></html>"##;
    let links = extract_links(body, &page);
    assert_eq!(links.len(), 3);
    let new_hosts = st.process_links(links, "example.com");
    st.finish_work();
    assert_eq!(new_hosts, vec!["blog.example.com".to_string()]);

    let m = st.sub_map();
    assert_eq!(m.hosts(), vec!["blog.example.com".to_string(), "example.com".to_string()]);
    assert!(m.has_path("blog.example.com", "/post"));
    assert!(m.has_path("example.com", "/about"));
    assert!(!m.has_path("other.org", "/x"));
    assert_eq!(st.pending(), 2);
    assert_eq!(st.enqueued(), 3);
}

#[test]
fn per_host_cap_bounds_enqueued_pages() {
    let mut st = CrawlerState::new(url("https://example.com/"), 2);
    let _ = take_url(&mut st);
    let links = vec![
        url("https://example.com/a"),
        url("https://example.com/b"),
        url("https://example.com/c"),
        url("https://x.example.com/1"),
        url("https://x.example.com/2"),
        url("https://x.example.com/3"),
    ];
    st.process_links(links, "example.com");
    st.finish_work();
    // The seed counts against example.com, so one more page of it fits;
    // x.example.com gets two.
    assert_eq!(st.enqueued(), 4);
    assert_eq!(st.pending(), 3);
    // Every link is still recorded, crawled or not.
    assert!(st.sub_map().has_path("example.com", "/c"));
    assert!(st.sub_map().has_path("x.example.com", "/3"));
}

#[test]
fn links_already_enqueued_are_not_enqueued_again() {
    let mut st = CrawlerState::new(url("https://example.com/"), 10);
    let _ = take_url(&mut st);
    st.process_links(vec![url("https://example.com/"), url("https://example.com/a"), url("https://example.com/a")], "example.com");
    st.finish_work();
    assert_eq!(st.enqueued(), 2);
    assert_eq!(st.pending(), 1);
}

#[test]
fn work_states_follow_queue_and_active_workers() {
    let mut st = CrawlerState::new(url("https://example.com/"), 5);
    let _ = take_url(&mut st);
    assert!(matches!(st.take_work(), WorkItem::Wait));
    assert_eq!(st.active(), 1);
    st.finish_work();
    assert!(matches!(st.take_work(), WorkItem::Done));
    assert!(matches!(st.take_work(), WorkItem::Done));
}

#[test]
fn crawl_of_a_finite_graph_terminates() {
    // A cyclic link graph of four pages: every page links to all of them.
    let pages = [
        "https://example.com/",
        "https://a.example.com/",
        "https://b.example.com/",
        "https://example.com/x",
    ];
    let mut st = CrawlerState::new(url(pages[0]), 10);
    let mut fetched = 0;
    loop {
        match st.take_work() {
            WorkItem::Url(_) => {
                fetched += 1;
                assert!(fetched <= pages.len());
                let links: Vec<UrlParts> = pages.iter().map(|p| url(p)).collect();
                st.process_links(links, "example.com");
                st.finish_work();
            }
            WorkItem::Wait => panic!("a single worker never waits"),
            WorkItem::Done => break,
        }
    }
    assert_eq!(fetched, 4);
    assert_eq!(st.stats().visited_pages, 4);
    assert_eq!(st.stats().hosts_seen, 3);
}

#[test]
fn seed_without_host_is_still_enqueued() {
    let mut st = CrawlerState::new(url("data:text/plain,hi"), 5);
    assert_eq!(st.enqueued(), 1);
    let u = take_url(&mut st);
    assert_eq!(u.host, None);
    st.finish_work();
    assert!(matches!(st.take_work(), WorkItem::Done));
}
