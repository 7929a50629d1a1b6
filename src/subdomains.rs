//! The result store: every host found under a root domain, with the distinct
//! paths seen on it.

use vstd::prelude::*;
use crate::domain::{host_in_scope, in_scope_ci, label_under, subdomain_label};
use crate::text::{chars_lt, chars_of, lemma_seq_lt_total, lemma_seq_lt_trans, lower_of, seq_lt, to_lower};
use crate::urls::{UrlParts, UrlView};

verus! {

/// The paths held for `host` in `m`, empty when `host` is absent.
pub open spec fn paths_at(m: Map<Seq<char>, Set<Seq<char>>>, host: Seq<char>) -> Set<Seq<char>> {
    if m.contains_key(host) {
        m[host]
    } else {
        Set::empty()
    }
}

/// The store after recording `u` under `root`: a URL without a host, or with
/// one outside the scope of `root`, leaves it as it was; otherwise the
/// lower-cased host gains the URL's path.
pub open spec fn add_view(
    m: Map<Seq<char>, Set<Seq<char>>>,
    u: UrlView,
    root: Seq<char>,
) -> Map<Seq<char>, Set<Seq<char>>> {
    match u.host {
        Some(h) => if in_scope_ci(h, root) {
            m.insert(lower_of(h), paths_at(m, lower_of(h)).insert(u.path))
        } else {
            m
        },
        None => m,
    }
}

/// Recording `u` under `root` brings a host that `m` did not hold.
pub open spec fn adds_new_host(m: Map<Seq<char>, Set<Seq<char>>>, u: UrlView, root: Seq<char>) -> bool {
    match u.host {
        Some(h) => in_scope_ci(h, root) && !m.contains_key(lower_of(h)),
        None => false,
    }
}

/// The union of two stores, host by host.
pub open spec fn merge_view(
    a: Map<Seq<char>, Set<Seq<char>>>,
    b: Map<Seq<char>, Set<Seq<char>>>,
) -> Map<Seq<char>, Set<Seq<char>>> {
    Map::new(
        |h: Seq<char>| a.contains_key(h) || b.contains_key(h),
        |h: Seq<char>| paths_at(a, h).union(paths_at(b, h)),
    )
}

/// The strings of `ps`, as a set.
pub open spec fn path_set(ps: Seq<String>) -> Set<Seq<char>> {
    Set::new(|p: Seq<char>| exists|k: int| 0 <= k < ps.len() && #[trigger] ps[k]@ == p)
}

proof fn lemma_path_set_push(ps: Seq<String>, x: String)
    ensures
        path_set(ps.push(x)) == path_set(ps).insert(x@),
{
    let l = path_set(ps.push(x));
    let r = path_set(ps).insert(x@);
    assert forall|p: Seq<char>| l.contains(p) <==> r.contains(p) by {
        if l.contains(p) {
            let k = choose|k: int| 0 <= k < ps.push(x).len() && #[trigger] ps.push(x)[k]@ == p;
            if k < ps.len() {
                assert(ps[k]@ == p);
            }
        }
        if r.contains(p) {
            if p == x@ {
                assert(ps.push(x)[ps.len() as int]@ == p);
            } else {
                let k = choose|k: int| 0 <= k < ps.len() && #[trigger] ps[k]@ == p;
                assert(ps.push(x)[k]@ == p);
            }
        }
    }
    assert(l =~= r);
}

/// The paths seen on one host.
#[derive(Debug)]
struct HostPaths {
    host: String,
    paths: Vec<String>,
}

/// Hosts under a root domain, each with the set of distinct paths seen on it.
pub struct SubdomainMap {
    entries: Vec<HostPaths>,
    model: Ghost<Map<Seq<char>, Set<Seq<char>>>>,
}

impl View for SubdomainMap {
    type V = Map<Seq<char>, Set<Seq<char>>>;

    closed spec fn view(&self) -> Map<Seq<char>, Set<Seq<char>>> {
        self.model@
    }
}

impl SubdomainMap {
    /// The entries hold exactly the hosts and paths of the model, one entry
    /// per host, none of them empty.
    pub closed spec fn wf(&self) -> bool {
        &&& forall|i: int|
            0 <= i < self.entries@.len() ==> {
                &&& self.model@.contains_key(#[trigger] self.entries@[i].host@)
                &&& self.model@[self.entries@[i].host@] == path_set(self.entries@[i].paths@)
                &&& self.entries@[i].paths@.len() > 0
            }
        &&& forall|h: Seq<char>|
            #[trigger] self.model@.contains_key(h) ==> exists|i: int|
                0 <= i < self.entries@.len() && #[trigger] self.entries@[i].host@ == h
        &&& forall|i: int, j: int|
            0 <= i < j < self.entries@.len() ==> #[trigger] self.entries@[i].host@
                != #[trigger] self.entries@[j].host@
    }

    /// An empty store.
    pub fn new() -> (r: SubdomainMap)
        ensures
            r.wf(),
            r@ == Map::<Seq<char>, Set<Seq<char>>>::empty(),
    {
        SubdomainMap { entries: Vec::new(), model: Ghost(Map::empty()) }
    }

    fn find_host(&self, host: &String) -> (r: Option<usize>)
        requires
            self.wf(),
        ensures
            match r {
                Some(i) => i < self.entries@.len() && self.entries@[i as int].host@ == host@,
                None => !self@.contains_key(host@),
            },
    {
        let mut i: usize = 0;
        while i < self.entries.len()
            invariant
                self.wf(),
                i <= self.entries@.len(),
                forall|k: int| 0 <= k < i ==> self.entries@[k].host@ != host@,
            decreases self.entries@.len() - i,
        {
            if self.entries[i].host == *host {
                return Some(i);
            }
            i += 1;
        }
        None
    }

    /// Adds `path` to the paths of `host`, creating the host where needed.
    fn insert_path(&mut self, host: String, path: String)
        requires
            old(self).wf(),
        ensures
            final(self).wf(),
            final(self)@ == old(self)@.insert(host@, paths_at(old(self)@, host@).insert(path@)),
    {
        let ghost m = self.model@;
        match self.find_host(&host) {
            Some(i) => {
                let ghost old_entries = self.entries@;
                let ghost old_paths = self.entries@[i as int].paths@;
                let mut j: usize = 0;
                let mut present = false;
                while j < self.entries[i].paths.len()
                    invariant_except_break
                        !present,
                        forall|k: int| 0 <= k < j ==> old_paths[k]@ != path@,
                    invariant
                        self.wf(),
                        self.entries@ == old_entries,
                        i < self.entries@.len(),
                        old_paths == self.entries@[i as int].paths@,
                        j <= old_paths.len(),
                    ensures
                        present ==> path_set(old_paths).contains(path@),
                        !present ==> forall|k: int| 0 <= k < old_paths.len() ==> old_paths[k]@ != path@,
                    decreases old_paths.len() - j,
                {
                    if self.entries[i].paths[j] == path {
                        present = true;
                        assert(old_paths[j as int]@ == path@);
                        break;
                    }
                    j += 1;
                }
                if present {
                    assert(m.contains_key(old_entries[i as int].host@));
                    assert(paths_at(m, host@).insert(path@) =~= paths_at(m, host@));
                    assert(m.insert(host@, paths_at(m, host@).insert(path@)) =~= m);
                } else {
                    let mut entry = self.entries.remove(i);
                    entry.paths.push(path);
                    proof {
                        lemma_path_set_push(old_paths, entry.paths@.last());
                        assert(entry.paths@ == old_paths.push(entry.paths@.last()));
                    }
                    self.entries.insert(i, entry);
                    assert(self.entries@ =~= old_entries.update(i as int, self.entries@[i as int]));
                    self.model = Ghost(m.insert(host@, paths_at(m, host@).insert(path@)));
                    assert forall|h: Seq<char>| #[trigger] self.model@.contains_key(h) implies exists|k: int|
                        0 <= k < self.entries@.len() && #[trigger] self.entries@[k].host@ == h by {
                        if h != host@ {
                            let k = choose|k: int| 0 <= k < old_entries.len() && #[trigger] old_entries[k].host@ == h;
                            assert(self.entries@[k].host@ == h);
                        } else {
                            assert(self.entries@[i as int].host@ == h);
                        }
                    }
                    assert forall|k: int| 0 <= k < self.entries@.len() implies {
                        &&& self.model@.contains_key(#[trigger] self.entries@[k].host@)
                        &&& self.model@[self.entries@[k].host@] == path_set(self.entries@[k].paths@)
                        &&& self.entries@[k].paths@.len() > 0
                    } by {
                        if k != i {
                            assert(old_entries[k].host@ != host@);
                        }
                    }
                }
            },
            None => {
                let ghost path_v = path@;
                let ghost host_v = host@;
                let mut paths: Vec<String> = Vec::new();
                paths.push(path);
                proof {
                    lemma_path_set_push(Seq::empty(), paths@[0]);
                    assert(Seq::<String>::empty().push(paths@[0]) =~= paths@);
                    assert(path_set(Seq::<String>::empty()) =~= Set::empty());
                }
                self.entries.push(HostPaths { host, paths });
                self.model = Ghost(m.insert(host_v, paths_at(m, host_v).insert(path_v)));
                assert forall|h: Seq<char>| #[trigger] self.model@.contains_key(h) implies exists|k: int|
                    0 <= k < self.entries@.len() && #[trigger] self.entries@[k].host@ == h by {
                    if h != host_v {
                        let k = choose|k: int| 0 <= k < old(self).entries@.len() && #[trigger] old(self).entries@[k].host@ == h;
                        assert(self.entries@[k].host@ == h);
                    } else {
                        assert(self.entries@[self.entries@.len() - 1].host@ == h);
                    }
                }
                assert forall|k: int| 0 <= k < self.entries@.len() implies {
                    &&& self.model@.contains_key(#[trigger] self.entries@[k].host@)
                    &&& self.model@[self.entries@[k].host@] == path_set(self.entries@[k].paths@)
                    &&& self.entries@[k].paths@.len() > 0
                } by {
                    if k < old(self).entries@.len() {
                        assert(m.contains_key(old(self).entries@[k].host@));
                        assert(old(self).entries@[k].host@ != host_v);
                    }
                }
                assert forall|k: int, l: int| 0 <= k < l < self.entries@.len() implies #[trigger] self.entries@[k].host@
                    != #[trigger] self.entries@[l].host@ by {
                    if l == old(self).entries@.len() {
                        assert(m.contains_key(old(self).entries@[k].host@));
                    }
                }
            },
        }
    }

    /// Records `url` when its host lies in the scope of `root_domain` (case
    /// ignored): the lower-cased host gains the URL's path. Returns whether the
    /// host was new to the store.
    pub fn add_url(&mut self, url: &UrlParts, root_domain: &str) -> (r: bool)
        requires
            old(self).wf(),
        ensures
            final(self).wf(),
            final(self)@ == add_view(old(self)@, url@, root_domain@),
            r == adds_new_host(old(self)@, url@, root_domain@),
    {
        let h = match &url.host {
            Some(h) => h,
            None => return false,
        };
        if !host_in_scope(h.as_str(), root_domain) {
            return false;
        }
        let host = to_lower(h.as_str());
        let is_new = match self.find_host(&host) {
            Some(_) => false,
            None => true,
        };
        self.insert_path(host, url.path.clone());
        is_new
    }

    /// The hosts among the first `n` entries.
    spec fn hosts_before(&self, n: int) -> Set<Seq<char>> {
        Set::new(|h: Seq<char>| exists|k: int| 0 <= k < n && #[trigger] self.entries@[k].host@ == h)
    }

    /// Adds every host and path of `other` to this store.
    pub fn merge_from(&mut self, other: SubdomainMap)
        requires
            old(self).wf(),
            other.wf(),
        ensures
            final(self).wf(),
            final(self)@ == merge_view(old(self)@, other@),
    {
        let ghost start = self@;
        let mut i: usize = 0;
        proof {
            assert(other.hosts_before(0) =~= Set::empty());
            assert forall|x: Seq<char>| start.contains_key(x) implies
                #[trigger] merge_view(start, other@.restrict(other.hosts_before(0)))[x] == start[x] by {
                assert(paths_at(start, x).union(paths_at(other@.restrict(other.hosts_before(0)), x)) =~= start[x]);
            }
            assert(merge_view(start, other@.restrict(other.hosts_before(0))) =~= start);
        }
        while i < other.entries.len()
            invariant
                self.wf(),
                other.wf(),
                i <= other.entries@.len(),
                self@ == merge_view(start, other@.restrict(other.hosts_before(i as int))),
            decreases other.entries@.len() - i,
        {
            let ghost m0 = self@;
            let ghost h = other.entries@[i as int].host@;
            let ghost ps = other.entries@[i as int].paths@;
            let mut j: usize = 0;
            while j < other.entries[i].paths.len()
                invariant
                    self.wf(),
                    other.wf(),
                    i < other.entries@.len(),
                    h == other.entries@[i as int].host@,
                    ps == other.entries@[i as int].paths@,
                    j <= ps.len(),
                    j == 0 ==> self@ == m0,
                    j > 0 ==> self@ == m0.insert(h, paths_at(m0, h).union(path_set(ps.take(j as int)))),
                decreases ps.len() - j,
            {
                let host = other.entries[i].host.clone();
                let path = other.entries[i].paths[j].clone();
                self.insert_path(host, path);
                proof {
                    assert(ps.take(j + 1) == ps.take(j as int).push(ps[j as int]));
                    lemma_path_set_push(ps.take(j as int), ps[j as int]);
                    if j == 0 {
                        assert(path_set(ps.take(0)) =~= Set::empty());
                        assert(paths_at(m0, h).union(path_set(ps.take(1))) =~= paths_at(m0, h).insert(ps[0]@));
                    } else {
                        assert(paths_at(m0, h).union(path_set(ps.take(j + 1))) =~=
                            paths_at(m0, h).union(path_set(ps.take(j as int))).insert(ps[j as int]@));
                    }
                    assert(self@ =~= m0.insert(h, paths_at(m0, h).union(path_set(ps.take(j + 1)))));
                }
                j += 1;
            }
            proof {
                assert(ps.take(ps.len() as int) == ps);
                assert(!other.hosts_before(i as int).contains(h));
                let k_next = other.hosts_before(i + 1);
                assert forall|x: Seq<char>| k_next.contains(x) <==> other.hosts_before(i as int).insert(h).contains(x) by {
                    if k_next.contains(x) {
                        let k = choose|k: int| 0 <= k < i + 1 && #[trigger] other.entries@[k].host@ == x;
                        if k < i {
                            assert(other.hosts_before(i as int).contains(x));
                        }
                    }
                    if other.hosts_before(i as int).contains(x) {
                        let k = choose|k: int| 0 <= k < i && #[trigger] other.entries@[k].host@ == x;
                        assert(other.entries@[k].host@ == x);
                    }
                    if x == h {
                        assert(other.entries@[i as int].host@ == x);
                    }
                }
                assert(k_next =~= other.hosts_before(i as int).insert(h));
                let kb = other.hosts_before(i as int);
                assert(other@.contains_key(h));
                assert(other@[h] == path_set(ps));
                assert(paths_at(m0, h) =~= paths_at(start, h));
                let mv = merge_view(start, other@.restrict(k_next));
                assert forall|x: Seq<char>| #[trigger] mv.contains_key(x) implies self@.contains_key(x) && self@[x] == mv[x] by {
                    if x == h {
                        assert(paths_at(other@.restrict(k_next), x) == path_set(ps));
                    } else {
                        assert(paths_at(other@.restrict(k_next), x) == paths_at(other@.restrict(kb), x));
                    }
                }
                assert(self@ =~= mv);
            }
            i += 1;
        }
        proof {
            let all = other.hosts_before(other.entries@.len() as int);
            assert forall|x: Seq<char>| other@.contains_key(x) implies all.contains(x) by {
                let k = choose|k: int| 0 <= k < other.entries@.len() && #[trigger] other.entries@[k].host@ == x;
                assert(other.entries@[k].host@ == x);
            }
            assert(other@.restrict(all) =~= other@);
        }
    }

    /// Whether `host` is held with `path` among its paths.
    pub fn has_path(&self, host: &str, path: &str) -> (r: bool)
        requires
            self.wf(),
        ensures
            r == (self@.contains_key(host@) && self@[host@].contains(path@)),
    {
        let key = host.to_owned();
        let wanted = path.to_owned();
        match self.find_host(&key) {
            None => false,
            Some(i) => {
                let ghost ps = self.entries@[i as int].paths@;
                let mut j: usize = 0;
                while j < self.entries[i].paths.len()
                    invariant
                        self.wf(),
                        i < self.entries@.len(),
                        ps == self.entries@[i as int].paths@,
                        wanted@ == path@,
                        self.entries@[i as int].host@ == host@,
                        j <= ps.len(),
                        forall|k: int| 0 <= k < j ==> ps[k]@ != path@,
                    decreases ps.len() - j,
                {
                    if self.entries[i].paths[j] == wanted {
                        assert(ps[j as int]@ == path@);
                        assert(path_set(ps).contains(path@));
                        return true;
                    }
                    j += 1;
                }
                false
            },
        }
    }

    /// The paths held for `host`, each once; empty when the host is absent.
    pub fn paths_of(&self, host: &str) -> (r: Vec<String>)
        requires
            self.wf(),
        ensures
            path_set(r@) == paths_at(self@, host@),
    {
        let key = host.to_owned();
        match self.find_host(&key) {
            None => {
                assert(path_set(Seq::<String>::empty()) =~= Set::empty());
                Vec::new()
            },
            Some(i) => clone_strings(&self.entries[i].paths),
        }
    }

    /// The hosts held, each once, in the order they were first recorded.
    pub fn hosts(&self) -> (r: Vec<String>)
        requires
            self.wf(),
        ensures
            forall|k: int| 0 <= k < r@.len() ==> self@.contains_key(#[trigger] r@[k]@),
            forall|h: Seq<char>| #[trigger] self@.contains_key(h) ==> exists|k: int| 0 <= k < r@.len() && #[trigger] r@[k]@ == h,
            forall|k: int, l: int| 0 <= k < l < r@.len() ==> #[trigger] r@[k]@ != #[trigger] r@[l]@,
    {
        let mut out: Vec<String> = Vec::new();
        let mut i: usize = 0;
        while i < self.entries.len()
            invariant
                self.wf(),
                i <= self.entries@.len(),
                out@.len() == i,
                forall|k: int| 0 <= k < i ==> #[trigger] out@[k]@ == self.entries@[k].host@,
            decreases self.entries@.len() - i,
        {
            out.push(self.entries[i].host.clone());
            i += 1;
        }
        assert forall|h: Seq<char>| #[trigger] self@.contains_key(h) implies exists|k: int| 0 <= k < out@.len() && #[trigger] out@[k]@ == h by {
            let k = choose|k: int| 0 <= k < self.entries@.len() && #[trigger] self.entries@[k].host@ == h;
            assert(out@[k]@ == h);
        }
        assert forall|k: int, l: int| 0 <= k < l < out@.len() implies #[trigger] out@[k]@ != #[trigger] out@[l]@ by {
            assert(self.entries@[k].host@ != self.entries@[l].host@);
        }
        out
    }
}

/// The strings of `v`, as character sequences.
pub open spec fn views(v: Seq<String>) -> Seq<Seq<char>> {
    v.map_values(|s: String| s@)
}

/// Strictly increasing in lexicographic order.
pub open spec fn sorted_strictly(v: Seq<Seq<char>>) -> bool {
    forall|i: int, j: int| 0 <= i < j < v.len() ==> seq_lt(#[trigger] v[i], #[trigger] v[j])
}

/// Inserts `x` into a sorted list that does not hold it, keeping the order.
fn insert_sorted(out: &mut Vec<String>, x: String)
    requires
        sorted_strictly(views(old(out)@)),
        !views(old(out)@).contains(x@),
    ensures
        sorted_strictly(views(final(out)@)),
        views(final(out)@).to_set() == views(old(out)@).to_set().insert(x@),
{
    let xc = chars_of(x.as_str());
    let ghost xv = x@;
    let ghost before = views(out@);
    let mut p: usize = 0;
    while p < out.len() && chars_lt(&chars_of(out[p].as_str()), &xc)
        invariant
            p <= out@.len(),
            xc@ == xv,
            before == views(out@),
            forall|q: int| 0 <= q < p ==> seq_lt(#[trigger] before[q], xv),
        decreases out@.len() - p,
    {
        p += 1;
    }
    out.insert(p, x);
    proof {
        let after = views(out@);
        assert(after =~= before.insert(p as int, xv));
        if p < before.len() {
            lemma_seq_lt_total(before[p as int], xv);
            assert(before[p as int] != xv);
        }
        assert forall|a: int, b: int| 0 <= a < b < after.len() implies seq_lt(#[trigger] after[a], #[trigger] after[b]) by {
            if a == p && b > p {
                if b - 1 > p {
                    lemma_seq_lt_trans(xv, before[p as int], before[b - 1]);
                }
            }
        }
        assert forall|h: Seq<char>| after.to_set().contains(h) <==> before.to_set().insert(xv).contains(h) by {
            if after.contains(h) {
                let a = choose|a: int| 0 <= a < after.len() && after[a] == h;
                if a < p {
                    assert(before[a] == h);
                } else if a > p {
                    assert(before[a - 1] == h);
                }
            }
            if before.contains(h) {
                let b = choose|b: int| 0 <= b < before.len() && before[b] == h;
                if b < p {
                    assert(after[b] == h);
                } else {
                    assert(after[b + 1] == h);
                }
            }
            if h == xv {
                assert(after[p as int] == h);
            }
        }
        assert(after.to_set() =~= before.to_set().insert(xv));
    }
}

/// The hosts of a list that have a subdomain label under `root`.
pub open spec fn labelled(hosts: Set<Seq<char>>, root: Seq<char>) -> Set<Seq<char>> {
    hosts.filter(|h: Seq<char>| label_under(h, root) is Some)
}

impl SubdomainMap {
    /// The hosts that have a subdomain label under `root_domain`, in
    /// lexicographic order, each once.
    pub fn hosts_under(&self, root_domain: &str) -> (r: Vec<String>)
        requires
            self.wf(),
        ensures
            sorted_strictly(views(r@)),
            views(r@).to_set() == labelled(self@.dom(), root_domain@),
    {
        let hosts = self.hosts();
        let ghost hv = views(hosts@);
        let mut out: Vec<String> = Vec::new();
        let mut i: usize = 0;
        assert(hv.take(0).to_set() =~= Set::empty());
        assert(views(out@).to_set() =~= Set::empty());
        assert(labelled(Set::empty(), root_domain@) =~= Set::empty());
        while i < hosts.len()
            invariant
                i <= hosts@.len(),
                hv == views(hosts@),
                forall|k: int, l: int| 0 <= k < l < hosts@.len() ==> #[trigger] hosts@[k]@ != #[trigger] hosts@[l]@,
                sorted_strictly(views(out@)),
                views(out@).to_set() == labelled(hv.take(i as int).to_set(), root_domain@),
            decreases hosts@.len() - i,
        {
            let ghost x = hv[i as int];
            proof {
                assert(hv.take(i + 1) =~= hv.take(i as int).push(x));
                hv.take(i as int).lemma_push_to_set_commute(x);
            }
            match subdomain_label(hosts[i].as_str(), root_domain) {
                None => {
                    assert(labelled(hv.take(i + 1).to_set(), root_domain@) =~= labelled(hv.take(i as int).to_set(), root_domain@));
                },
                Some(_) => {
                    assert(!views(out@).contains(x)) by {
                        if views(out@).contains(x) {
                            assert(views(out@).to_set().contains(x));
                            let k = choose|k: int| 0 <= k < i && hv.take(i as int)[k] == x;
                            assert(hosts@[k]@ == hosts@[i as int]@);
                        }
                    }
                    insert_sorted(&mut out, hosts[i].clone());
                    assert(labelled(hv.take(i + 1).to_set(), root_domain@) =~= labelled(hv.take(i as int).to_set(), root_domain@).insert(x));
                },
            }
            i += 1;
        }
        proof {
            assert(hv.take(hosts@.len() as int) =~= hv);
            assert forall|h: Seq<char>| hv.to_set().contains(h) <==> self@.dom().contains(h) by {
                if hv.contains(h) {
                    let k = choose|k: int| 0 <= k < hv.len() && hv[k] == h;
                    assert(self@.contains_key(hosts@[k]@));
                }
                if self@.contains_key(h) {
                    let k = choose|k: int| 0 <= k < hosts@.len() && #[trigger] hosts@[k]@ == h;
                    assert(hv[k] == h);
                }
            }
            assert(hv.to_set() =~= self@.dom());
        }
        out
    }
}

fn clone_strings(v: &Vec<String>) -> (r: Vec<String>)
    ensures
        r@ == v@,
{
    let mut out: Vec<String> = Vec::new();
    let mut i: usize = 0;
    while i < v.len()
        invariant
            i <= v@.len(),
            out@ == v@.take(i as int),
        decreases v@.len() - i,
    {
        out.push(v[i].clone());
        i += 1;
        assert(out@ =~= v@.take(i as int));
    }
    assert(v@.take(v@.len() as int) =~= v@);
    out
}

impl Clone for SubdomainMap {
    fn clone(&self) -> (r: Self)
        ensures
            r@ == self@,
            self.wf() ==> r.wf(),
    {
        let mut entries: Vec<HostPaths> = Vec::new();
        let mut i: usize = 0;
        while i < self.entries.len()
            invariant
                i <= self.entries@.len(),
                entries@.len() == i,
                forall|k: int| 0 <= k < i ==> (#[trigger] entries@[k]).host == self.entries@[k].host
                    && entries@[k].paths@ == self.entries@[k].paths@,
            decreases self.entries@.len() - i,
        {
            entries.push(HostPaths {
                host: self.entries[i].host.clone(),
                paths: clone_strings(&self.entries[i].paths),
            });
            i += 1;
        }
        let r = SubdomainMap { entries, model: Ghost(self.model@) };
        proof {
            if self.wf() {
                assert forall|h: Seq<char>| #[trigger] r.model@.contains_key(h) implies exists|k: int|
                    0 <= k < r.entries@.len() && #[trigger] r.entries@[k].host@ == h by {
                    let k = choose|k: int| 0 <= k < self.entries@.len() && #[trigger] self.entries@[k].host@ == h;
                    assert(r.entries@[k].host@ == h);
                }
                assert forall|k: int, l: int| 0 <= k < l < r.entries@.len() implies #[trigger] r.entries@[k].host@
                    != #[trigger] r.entries@[l].host@ by {
                    assert(self.entries@[k].host@ != self.entries@[l].host@);
                }
                assert forall|k: int| 0 <= k < r.entries@.len() implies {
                    &&& r.model@.contains_key(#[trigger] r.entries@[k].host@)
                    &&& r.model@[r.entries@[k].host@] == path_set(r.entries@[k].paths@)
                    &&& r.entries@[k].paths@.len() > 0
                } by {
                    assert(self.model@.contains_key(self.entries@[k].host@));
                }
            }
        }
        r
    }
}

impl Default for SubdomainMap {
    fn default() -> (r: SubdomainMap)
        ensures
            r.wf(),
            r@ == Map::<Seq<char>, Set<Seq<char>>>::empty(),
    {
        SubdomainMap::new()
    }
}

/// A URL whose host is missing, or lies outside the scope of the root domain,
/// leaves the store as it was and is not reported as a new host.
pub proof fn lemma_add_out_of_scope(store: SubdomainMap, url: UrlParts, root: Seq<char>)
    requires
        url@.host is None || !in_scope_ci(url@.host->0, root),
    ensures
        add_view(store@, url@, root) == store@,
        !adds_new_host(store@, url@, root),
{
}

/// Recording a URL a second time, or another URL with the same host and path
/// (one that differs only in query or fragment), changes nothing and brings no
/// new host.
pub proof fn lemma_add_idempotent(store: SubdomainMap, first: UrlParts, again: UrlParts, root: Seq<char>)
    requires
        first@.host == again@.host,
        first@.path == again@.path,
    ensures
        add_view(add_view(store@, first@, root), again@, root) == add_view(store@, first@, root),
        !adds_new_host(add_view(store@, first@, root), again@, root),
{
    let once = add_view(store@, first@, root);
    match first@.host {
        Some(h) => {
            if in_scope_ci(h, root) {
                let k = lower_of(h);
                assert(paths_at(once, k).insert(again@.path) =~= paths_at(once, k));
                assert(add_view(once, again@, root) =~= once);
            }
        },
        None => {},
    }
}

/// A URL already absorbed by a store stays absorbed after the store records
/// another one.
pub proof fn lemma_absorbed_after_add(
    m: Map<Seq<char>, Set<Seq<char>>>,
    u: UrlView,
    other: UrlView,
    root: Seq<char>,
)
    requires
        add_view(m, u, root) == m,
    ensures
        add_view(add_view(m, other, root), u, root) == add_view(m, other, root),
{
    let m2 = add_view(m, other, root);
    match u.host {
        Some(h) => {
            if in_scope_ci(h, root) {
                let k = lower_of(h);
                assert(m.insert(k, paths_at(m, k).insert(u.path)).contains_key(k));
                assert(m.contains_key(k));
                assert(m.insert(k, paths_at(m, k).insert(u.path))[k] == m[k]);
                assert(m[k].contains(u.path));
                assert(m2.contains_key(k));
                assert(m2[k].contains(u.path));
                assert(paths_at(m2, k).insert(u.path) =~= paths_at(m2, k));
                assert(add_view(m2, u, root) =~= m2);
            }
        },
        None => {},
    }
}

/// Recording the same URL twice is recording it once.
pub proof fn lemma_add_view_twice(m: Map<Seq<char>, Set<Seq<char>>>, u: UrlView, root: Seq<char>)
    ensures
        add_view(add_view(m, u, root), u, root) == add_view(m, u, root),
{
    let once = add_view(m, u, root);
    match u.host {
        Some(h) => {
            if in_scope_ci(h, root) {
                let k = lower_of(h);
                assert(paths_at(once, k).insert(u.path) =~= paths_at(once, k));
                assert(add_view(once, u, root) =~= once);
            }
        },
        None => {},
    }
}

/// Merging is commutative: the order of two stores does not matter.
pub proof fn lemma_merge_commutative(a: SubdomainMap, b: SubdomainMap)
    ensures
        merge_view(a@, b@) == merge_view(b@, a@),
{
    assert forall|h: Seq<char>| #[trigger] merge_view(a@, b@).contains_key(h) implies
        merge_view(a@, b@)[h] == merge_view(b@, a@)[h] by {
        assert(paths_at(a@, h).union(paths_at(b@, h)) =~= paths_at(b@, h).union(paths_at(a@, h)));
    }
    assert(merge_view(a@, b@) =~= merge_view(b@, a@));
}

/// Merging is associative: how three stores are grouped does not matter.
pub proof fn lemma_merge_associative(a: SubdomainMap, b: SubdomainMap, c: SubdomainMap)
    ensures
        merge_view(a@, merge_view(b@, c@)) == merge_view(merge_view(a@, b@), c@),
{
    let l = merge_view(a@, merge_view(b@, c@));
    let r = merge_view(merge_view(a@, b@), c@);
    assert forall|h: Seq<char>| #[trigger] l.contains_key(h) implies r.contains_key(h) && l[h] == r[h] by {
        assert(l[h] =~= r[h]);
    }
    assert(l =~= r);
}

/// Merging a store with itself gives the same store.
pub proof fn lemma_merge_idempotent(a: SubdomainMap)
    ensures
        merge_view(a@, a@) == a@,
{
    assert forall|h: Seq<char>| #[trigger] merge_view(a@, a@).contains_key(h) implies
        merge_view(a@, a@)[h] == a@[h] by {
        assert(paths_at(a@, h).union(paths_at(a@, h)) =~= a@[h]);
    }
    assert(merge_view(a@, a@) =~= a@);
}

} // verus!
