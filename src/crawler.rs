//! The crawl frontier: the one shared state that every crawl worker takes its
//! work from and hands its findings to. Fetching pages is left to the caller;
//! each transition here runs under the caller's single lock.

use std::collections::VecDeque;
use vstd::prelude::*;
use crate::domain::{host_in_scope, in_scope_ci};
use crate::logging::CrawlerStats;
use crate::subdomains::{add_view, adds_new_host, SubdomainMap};
use crate::text::{lower_of, to_lower};
use crate::urls::{opt_view, UrlParts, UrlView};

verus! {

/// How many of the enqueued pages have host `h` (`None` stands for a page
/// without a host).
pub open spec fn count_host(hosts: Seq<Option<Seq<char>>>, h: Seq<char>) -> nat
    decreases hosts.len(),
{
    if hosts.len() == 0 {
        0
    } else {
        count_host(hosts.drop_last(), h) + if hosts.last() == Some(h) { 1nat } else { 0nat }
    }
}

proof fn lemma_count_host_push(hosts: Seq<Option<Seq<char>>>, x: Option<Seq<char>>, h: Seq<char>)
    ensures
        count_host(hosts.push(x), h) == count_host(hosts, h) + if x == Some(h) { 1nat } else { 0nat },
{
    assert(hosts.push(x).drop_last() =~= hosts);
}

/// The frontier as a value: pending pages in order, every page ever enqueued
/// with its host, and the store of findings.
pub struct FrontierView {
    pub queue: Seq<UrlView>,
    pub enqueued: Seq<Seq<char>>,
    pub enqueued_hosts: Seq<Option<Seq<char>>>,
    pub store: Map<Seq<char>, Set<Seq<char>>>,
}

/// One link found on a fetched page: a link outside the scope of `root` is
/// dropped; one inside is recorded in the store, and enqueued when it was
/// never enqueued before and its host has fewer than `max` enqueued pages.
pub open spec fn link_step(v: FrontierView, link: UrlView, root: Seq<char>, max: nat) -> FrontierView {
    match link.host {
        None => v,
        Some(raw) => if !in_scope_ci(raw, root) {
            v
        } else {
            let h = lower_of(raw);
            let store = add_view(v.store, link, root);
            if v.enqueued.contains(link.href) || count_host(v.enqueued_hosts, h) >= max {
                FrontierView { store, ..v }
            } else {
                FrontierView {
                    queue: v.queue.push(link),
                    enqueued: v.enqueued.push(link.href),
                    enqueued_hosts: v.enqueued_hosts.push(Some(h)),
                    store,
                }
            }
        },
    }
}

/// The frontier after the links of one page, taken in order.
pub open spec fn links_step(v: FrontierView, links: Seq<UrlView>, root: Seq<char>, max: nat) -> FrontierView
    decreases links.len(),
{
    if links.len() == 0 {
        v
    } else {
        link_step(links_step(v, links.drop_last(), root, max), links.last(), root, max)
    }
}

/// A link that brings a host new to the store, other than the root domain
/// itself.
pub open spec fn announces(store: Map<Seq<char>, Set<Seq<char>>>, link: UrlView, root: Seq<char>) -> bool {
    adds_new_host(store, link, root) && lower_of(link.host->0) != lower_of(root)
}

/// The new subdomains that the links of one page bring, in order.
pub open spec fn announced(v: FrontierView, links: Seq<UrlView>, root: Seq<char>, max: nat) -> Seq<Seq<char>>
    decreases links.len(),
{
    if links.len() == 0 {
        Seq::empty()
    } else {
        let before = links_step(v, links.drop_last(), root, max);
        announced(v, links.drop_last(), root, max) + if announces(before.store, links.last(), root) {
            seq![lower_of(links.last().host->0)]
        } else {
            Seq::empty()
        }
    }
}

/// The next thing a worker does.
pub enum WorkItem {
    /// Fetch this page.
    Url(UrlParts),
    /// Nothing is pending, but pages are still being fetched: try again soon.
    Wait,
    /// Nothing is pending and nothing is being fetched: the crawl is over.
    Done,
}

/// Pages enqueued so far on one host.
struct HostCount {
    host: String,
    count: usize,
}

/// The shared state of one crawl.
pub struct CrawlerState {
    queue: VecDeque<UrlParts>,
    visited_urls: Vec<String>,
    visited_hosts: Ghost<Seq<Option<Seq<char>>>>,
    host_page_count: Vec<HostCount>,
    max_pages_per_host: usize,
    sub_map: SubdomainMap,
    active: usize,
}

impl CrawlerState {
    /// The frontier as a value.
    pub closed spec fn frontier(&self) -> FrontierView {
        FrontierView {
            queue: self.queue@.map_values(|u: UrlParts| u@),
            enqueued: self.visited_urls@.map_values(|s: String| s@),
            enqueued_hosts: self.visited_hosts@,
            store: self.sub_map@,
        }
    }

    /// The cap on pages enqueued per host.
    pub closed spec fn max_pages(&self) -> nat {
        self.max_pages_per_host as nat
    }

    /// Workers that have taken a page and not yet handed back its links.
    pub closed spec fn active_workers(&self) -> nat {
        self.active as nat
    }

    /// How many pages `h` has had enqueued.
    pub open spec fn pages_enqueued(&self, h: Seq<char>) -> nat {
        count_host(self.frontier().enqueued_hosts, h)
    }

    /// The hosts that have had a page enqueued.
    pub open spec fn hosts_with_pages(&self) -> Set<Seq<char>> {
        Set::new(|h: Seq<char>| self.pages_enqueued(h) > 0)
    }

    /// How many pages workers have taken from the queue.
    pub open spec fn pages_taken(&self) -> int {
        self.frontier().enqueued.len() - self.frontier().queue.len()
    }

    /// The counters agree with what was enqueued, no page is enqueued twice,
    /// and no host is over the cap (the seed's host aside, which is enqueued
    /// even when the cap is zero).
    pub closed spec fn wf(&self) -> bool {
        &&& self.visited_hosts@.len() == self.visited_urls@.len()
        &&& self.frontier().enqueued.no_duplicates()
        &&& forall|i: int|
            0 <= i < self.host_page_count@.len() ==> #[trigger] self.host_page_count@[i].count
                == count_host(self.visited_hosts@, self.host_page_count@[i].host@)
                && self.host_page_count@[i].count >= 1
        &&& forall|i: int, j: int|
            0 <= i < j < self.host_page_count@.len() ==> #[trigger] self.host_page_count@[i].host@
                != #[trigger] self.host_page_count@[j].host@
        &&& forall|h: Seq<char>|
            #[trigger] count_host(self.visited_hosts@, h) > 0 ==> exists|i: int|
                0 <= i < self.host_page_count@.len() && #[trigger] self.host_page_count@[i].host@ == h
        &&& forall|h: Seq<char>|
            #[trigger] count_host(self.visited_hosts@, h) <= self.max_pages_per_host
                || count_host(self.visited_hosts@, h) <= 1
        &&& self.queue@.len() <= self.visited_urls@.len()
        &&& self.active <= self.visited_urls@.len() - self.queue@.len()
        &&& self.sub_map.wf()
    }

    /// A frontier holding the seed alone, enqueued and counted against its
    /// (lower-cased) host.
    pub fn new(start_url: UrlParts, max_pages_per_host: usize) -> (r: CrawlerState)
        ensures
            r.wf(),
            r.frontier().queue == seq![start_url@],
            r.frontier().enqueued == seq![start_url@.href],
            r.frontier().enqueued_hosts == seq![
                match start_url@.host {
                    Some(h) => Some(lower_of(h)),
                    None => None,
                },
            ],
            r.frontier().store == Map::<Seq<char>, Set<Seq<char>>>::empty(),
            r.max_pages() == max_pages_per_host,
            r.active_workers() == 0,
    {
        let mut queue: VecDeque<UrlParts> = VecDeque::new();
        let mut visited_urls: Vec<String> = Vec::new();
        let mut host_page_count: Vec<HostCount> = Vec::new();
        visited_urls.push(start_url.href.clone());
        let ghost start_v = start_url@;
        let ghost mut hosts: Seq<Option<Seq<char>>> = Seq::empty();
        match &start_url.host {
            Some(h) => {
                let host = to_lower(h.as_str());
                proof {
                    hosts = seq![Some(host@)];
                    assert(hosts.drop_last() =~= Seq::<Option<Seq<char>>>::empty());
                }
                host_page_count.push(HostCount { host, count: 1 });
            },
            None => {
                proof {
                    hosts = seq![None];
                    assert(hosts.drop_last() =~= Seq::<Option<Seq<char>>>::empty());
                }
            },
        }
        queue.push_back(start_url);
        let r = CrawlerState {
            queue,
            visited_urls,
            visited_hosts: Ghost(hosts),
            host_page_count,
            max_pages_per_host,
            sub_map: SubdomainMap::new(),
            active: 0,
        };
        assert(r.frontier().queue =~= seq![start_v]);
        assert(r.frontier().enqueued =~= seq![start_v.href]);
        assert forall|h: Seq<char>| #[trigger] count_host(hosts, h) == if hosts[0] == Some(h) { 1nat } else { 0nat } by {
            lemma_count_host_push(Seq::empty(), hosts[0], h);
            assert(Seq::<Option<Seq<char>>>::empty().push(hosts[0]) =~= hosts);
        }
        assert forall|h: Seq<char>| #[trigger] count_host(r.visited_hosts@, h) > 0 implies exists|i: int|
            0 <= i < r.host_page_count@.len() && #[trigger] r.host_page_count@[i].host@ == h by {
            assert(r.host_page_count@[0].host@ == h);
        }
        r
    }

    /// Hands out the earliest pending page and counts its worker as active;
    /// with nothing pending, says to wait while a worker is active, and that
    /// the crawl is over when none is.
    pub fn take_work(&mut self) -> (r: WorkItem)
        requires
            old(self).wf(),
        ensures
            final(self).wf(),
            final(self).max_pages() == old(self).max_pages(),
            old(self).frontier().queue.len() > 0 ==> {
                &&& r matches WorkItem::Url(u) && u@ == old(self).frontier().queue[0]
                &&& final(self).frontier() == FrontierView {
                    queue: old(self).frontier().queue.drop_first(),
                    ..old(self).frontier()
                }
                &&& final(self).active_workers() == old(self).active_workers() + 1
                &&& final(self).pages_taken() == old(self).pages_taken() + 1
            },
            old(self).frontier().queue.len() == 0 ==> {
                &&& final(self).frontier() == old(self).frontier()
                &&& final(self).active_workers() == old(self).active_workers()
                &&& (r is Wait <==> old(self).active_workers() > 0)
                &&& (r is Done <==> old(self).active_workers() == 0)
            },
    {
        let ghost q = self.queue@;
        match self.queue.pop_front() {
            Some(u) => {
                let n = self.visited_urls.len();
                assert(self.queue@.len() == q.len() - 1);
                self.active = self.active + 1;
                assert(self.frontier().queue =~= old(self).frontier().queue.drop_first());
                assert(self.host_page_count@ == old(self).host_page_count@);
                assert(self.visited_hosts@ == old(self).visited_hosts@);
                assert(self.wf());
                WorkItem::Url(u)
            },
            None => {
                assert(self.wf());
                if self.active > 0 {
                    WorkItem::Wait
                } else {
                    WorkItem::Done
                }
            },
        }
    }

    /// A worker hands back its page: it is no longer active.
    pub fn finish_work(&mut self)
        requires
            old(self).wf(),
            old(self).active_workers() > 0,
        ensures
            final(self).wf(),
            final(self).frontier() == old(self).frontier(),
            final(self).max_pages() == old(self).max_pages(),
            final(self).active_workers() == old(self).active_workers() - 1,
    {
        self.active = self.active - 1;
    }

    /// The number of workers that hold a page.
    pub fn active(&self) -> (r: usize)
        ensures
            r == self.active_workers(),
    {
        self.active
    }

    /// The findings so far.
    pub fn sub_map(&self) -> (r: &SubdomainMap)
        requires
            self.wf(),
        ensures
            r.wf(),
            r@ == self.frontier().store,
    {
        &self.sub_map
    }

    /// The findings, once the crawl is over.
    pub fn into_sub_map(self) -> (r: SubdomainMap)
        requires
            self.wf(),
        ensures
            r.wf(),
            r@ == self.frontier().store,
    {
        self.sub_map
    }

    /// How many pages are pending.
    pub fn pending(&self) -> (r: usize)
        ensures
            r == self.frontier().queue.len(),
    {
        self.queue.len()
    }

    /// How many pages were ever enqueued.
    pub fn enqueued(&self) -> (r: usize)
        ensures
            r == self.frontier().enqueued.len(),
    {
        self.visited_urls.len()
    }

    /// Progress figures: pages enqueued, hosts that have pages, and the cap.
    pub fn stats(&self) -> (r: CrawlerStats)
        requires
            self.wf(),
        ensures
            r.visited_pages == self.frontier().enqueued.len(),
            r.hosts_seen == self.hosts_with_pages().len(),
            r.max_pages_per_host == self.max_pages(),
    {
        proof {
            let hv = self.host_page_count@.map_values(|c: HostCount| c.host@);
            assert forall|k: int, l: int| 0 <= k < hv.len() && 0 <= l < hv.len() && k != l implies hv[k] != hv[l] by {
                if k < l {
                    assert(self.host_page_count@[k].host@ != self.host_page_count@[l].host@);
                } else {
                    assert(self.host_page_count@[l].host@ != self.host_page_count@[k].host@);
                }
            }
            hv.unique_seq_to_set();
            assert forall|h: Seq<char>| hv.to_set().contains(h) <==> self.hosts_with_pages().contains(h) by {
                if hv.contains(h) {
                    let k = choose|k: int| 0 <= k < hv.len() && hv[k] == h;
                    assert(self.host_page_count@[k].count >= 1);
                }
                if self.pages_enqueued(h) > 0 {
                    let k = choose|k: int| 0 <= k < self.host_page_count@.len() && #[trigger] self.host_page_count@[k].host@ == h;
                    assert(hv[k] == h);
                }
            }
            assert(hv.to_set() =~= self.hosts_with_pages());
        }
        CrawlerStats {
            visited_pages: self.visited_urls.len(),
            hosts_seen: self.host_page_count.len(),
            max_pages_per_host: self.max_pages_per_host,
        }
    }

    /// Whether `href` was ever enqueued.
    fn is_enqueued(&self, href: &String) -> (r: bool)
        ensures
            r == self.frontier().enqueued.contains(href@),
    {
        let mut i: usize = 0;
        while i < self.visited_urls.len()
            invariant
                i <= self.visited_urls@.len(),
                forall|k: int| 0 <= k < i ==> self.visited_urls@[k]@ != href@,
            decreases self.visited_urls@.len() - i,
        {
            if self.visited_urls[i] == *href {
                assert(self.frontier().enqueued[i as int] == href@);
                return true;
            }
            i += 1;
        }
        false
    }

    /// Where `host` is counted, and how many pages it has had enqueued.
    fn host_count(&self, host: &String) -> (r: (Option<usize>, usize))
        requires
            self.wf(),
        ensures
            r.1 == count_host(self.visited_hosts@, host@),
            match r.0 {
                Some(i) => i < self.host_page_count@.len() && self.host_page_count@[i as int].host@ == host@,
                None => forall|k: int| 0 <= k < self.host_page_count@.len() ==> self.host_page_count@[k].host@ != host@,
            },
    {
        let mut i: usize = 0;
        while i < self.host_page_count.len()
            invariant
                self.wf(),
                i <= self.host_page_count@.len(),
                forall|k: int| 0 <= k < i ==> self.host_page_count@[k].host@ != host@,
            decreases self.host_page_count@.len() - i,
        {
            if self.host_page_count[i].host == *host {
                return (Some(i), self.host_page_count[i].count);
            }
            i += 1;
        }
        proof {
            if count_host(self.visited_hosts@, host@) > 0 {
                let k = choose|k: int| 0 <= k < self.host_page_count@.len() && #[trigger] self.host_page_count@[k].host@ == host@;
                assert(self.host_page_count@[k].host@ == host@);
            }
        }
        (None, 0)
    }

    /// Handles one link found on a page; returns its host when the link
    /// brings a new subdomain.
    fn process_link(&mut self, link: &UrlParts, root_domain: &str, root_lower: &String) -> (r: Option<String>)
        requires
            old(self).wf(),
            root_lower@ == lower_of(root_domain@),
        ensures
            final(self).wf(),
            final(self).frontier() == link_step(old(self).frontier(), link@, root_domain@, old(self).max_pages()),
            final(self).max_pages() == old(self).max_pages(),
            final(self).active_workers() == old(self).active_workers(),
            opt_view(r) == if announces(old(self).frontier().store, link@, root_domain@) {
                Some(lower_of(link@.host->0))
            } else {
                None
            },
    {
        let raw = match &link.host {
            Some(h) => h,
            None => return None,
        };
        if !host_in_scope(raw.as_str(), root_domain) {
            return None;
        }
        let host = to_lower(raw.as_str());
        let is_new = self.sub_map.add_url(link, root_domain);
        let announce = if is_new && host != *root_lower {
            Some(host.clone())
        } else {
            None
        };
        let href = link.href.clone();
        if self.is_enqueued(&href) {
            return announce;
        }
        let (idx, count) = self.host_count(&host);
        if count >= self.max_pages_per_host {
            return announce;
        }
        let ghost vh = self.visited_hosts@;
        let ghost old_hpc = self.host_page_count@;
        let ghost h = host@;
        let ghost old_visited = self.frontier().enqueued;
        let ghost old_queue = self.frontier().queue;
        match idx {
            Some(i) => {
                self.host_page_count.set(i, HostCount { host, count: count + 1 });
            },
            None => {
                self.host_page_count.push(HostCount { host, count: 1 });
            },
        }
        self.visited_urls.push(href);
        self.visited_hosts = Ghost(vh.push(Some(h)));
        self.queue.push_back(link.clone());
        proof {
            assert forall|x: Seq<char>| #[trigger] count_host(self.visited_hosts@, x)
                == count_host(vh, x) + if x == h { 1nat } else { 0nat } by {
                lemma_count_host_push(vh, Some(h), x);
            }
            assert(self.frontier().enqueued =~= old_visited.push(link@.href));
            assert(self.frontier().queue =~= old_queue.push(link@));
            assert forall|k: int| 0 <= k < self.host_page_count@.len() implies #[trigger] self.host_page_count@[k].count
                == count_host(self.visited_hosts@, self.host_page_count@[k].host@) by {
                if k < old_hpc.len() && self.host_page_count@[k].host@ != h {
                    assert(self.host_page_count@[k] == old_hpc[k]);
                }
            }
            assert forall|x: Seq<char>| #[trigger] count_host(self.visited_hosts@, x) > 0 implies exists|k: int|
                0 <= k < self.host_page_count@.len() && #[trigger] self.host_page_count@[k].host@ == x by {
                if x == h {
                    match idx {
                        Some(i) => assert(self.host_page_count@[i as int].host@ == x),
                        None => assert(self.host_page_count@[old_hpc.len() as int].host@ == x),
                    }
                } else {
                    let k = choose|k: int| 0 <= k < old_hpc.len() && #[trigger] old_hpc[k].host@ == x;
                    assert(self.host_page_count@[k].host@ == x);
                }
            }
            assert forall|k: int, l: int| 0 <= k < l < self.host_page_count@.len() implies
                #[trigger] self.host_page_count@[k].host@ != #[trigger] self.host_page_count@[l].host@ by {
                if l == old_hpc.len() {
                    assert(old_hpc[k].host@ != h);
                }
            }
        }
        announce
    }

    /// Handles the links found on one page, in order: records those in scope
    /// and enqueues those that are new and under their host's cap. Returns the
    /// new subdomains found, in order.
    pub fn process_links(&mut self, links: Vec<UrlParts>, root_domain: &str) -> (r: Vec<String>)
        requires
            old(self).wf(),
        ensures
            final(self).wf(),
            final(self).frontier() == links_step(
                old(self).frontier(),
                links@.map_values(|u: UrlParts| u@),
                root_domain@,
                old(self).max_pages(),
            ),
            r@.map_values(|s: String| s@) == announced(
                old(self).frontier(),
                links@.map_values(|u: UrlParts| u@),
                root_domain@,
                old(self).max_pages(),
            ),
            final(self).max_pages() == old(self).max_pages(),
            final(self).active_workers() == old(self).active_workers(),
    {
        let ghost v0 = self.frontier();
        let ghost lv = links@.map_values(|u: UrlParts| u@);
        let ghost max = self.max_pages();
        let root_lower = to_lower(root_domain);
        let mut out: Vec<String> = Vec::new();
        let mut i: usize = 0;
        assert(lv.take(0) =~= Seq::<UrlView>::empty());
        while i < links.len()
            invariant
                self.wf(),
                i <= links@.len(),
                lv == links@.map_values(|u: UrlParts| u@),
                root_lower@ == lower_of(root_domain@),
                self.frontier() == links_step(v0, lv.take(i as int), root_domain@, max),
                out@.map_values(|s: String| s@) == announced(v0, lv.take(i as int), root_domain@, max),
                self.max_pages() == max,
                self.active_workers() == old(self).active_workers(),
            decreases links@.len() - i,
        {
            let found = self.process_link(&links[i], root_domain, &root_lower);
            proof {
                assert(lv.take(i + 1).drop_last() =~= lv.take(i as int));
                assert(lv.take(i + 1).last() == links@[i as int]@);
            }
            match found {
                Some(host) => {
                    out.push(host);
                },
                None => {},
            }
            assert(out@.map_values(|s: String| s@) =~= announced(v0, lv.take(i + 1), root_domain@, max));
            i += 1;
        }
        assert(lv.take(links@.len() as int) =~= lv);
        out
    }
}

/// The per-host cap holds in every reachable state: with a cap of `k >= 1`, no
/// host ever has more than `k` pages enqueued, however many workers share the
/// frontier (every change to it goes through the transitions above).
pub proof fn lemma_per_host_cap(st: CrawlerState, host: Seq<char>)
    requires
        st.wf(),
        st.max_pages() >= 1,
    ensures
        st.pages_enqueued(host) <= st.max_pages(),
{
    assert(count_host(st.visited_hosts@, host) <= st.max_pages_per_host
        || count_host(st.visited_hosts@, host) <= 1);
}

/// Handling links that all belong to a link graph keeps every enqueued page in
/// that graph, and leaves the number of pages taken unchanged.
pub proof fn lemma_links_stay_in_graph(
    v: FrontierView,
    links: Seq<UrlView>,
    root: Seq<char>,
    max: nat,
    graph: Set<Seq<char>>,
)
    requires
        forall|k: int| 0 <= k < v.enqueued.len() ==> graph.contains(#[trigger] v.enqueued[k]),
        forall|j: int| 0 <= j < links.len() ==> graph.contains(#[trigger] links[j].href),
    ensures
        forall|k: int| 0 <= k < links_step(v, links, root, max).enqueued.len()
            ==> graph.contains(#[trigger] links_step(v, links, root, max).enqueued[k]),
        links_step(v, links, root, max).enqueued.len() - links_step(v, links, root, max).queue.len()
            == v.enqueued.len() - v.queue.len(),
    decreases links.len(),
{
    if links.len() > 0 {
        let rest = links.drop_last();
        assert forall|j: int| 0 <= j < rest.len() implies graph.contains(#[trigger] rest[j].href) by {
            assert(rest[j] == links[j]);
        }
        lemma_links_stay_in_graph(v, rest, root, max, graph);
        assert(graph.contains(links[links.len() - 1].href));
    }
}

/// The crawl terminates on a finite link graph, whatever the number of
/// workers: a page is enqueued at most once, so while every enqueued page
/// belongs to the graph, workers take at most as many pages as the graph has;
/// each page handed out raises that count by one, and once nothing is pending
/// and no worker is active every worker is told the crawl is over.
pub proof fn lemma_pages_taken_bounded(st: CrawlerState, graph: Set<Seq<char>>)
    requires
        st.wf(),
        graph.finite(),
        forall|k: int| 0 <= k < st.frontier().enqueued.len() ==> graph.contains(#[trigger] st.frontier().enqueued[k]),
    ensures
        0 <= st.pages_taken() <= graph.len(),
{
    let e = st.frontier().enqueued;
    e.unique_seq_to_set();
    assert(e.to_set().subset_of(graph));
    vstd::set_lib::lemma_len_subset(e.to_set(), graph);
}

} // verus!
