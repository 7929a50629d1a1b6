//! The certificate-transparency source: hostnames named in certificates
//! logged for the root domain.

use vstd::prelude::*;
use crate::sources::{add_bare_domain, add_domain};
use crate::subdomains::{lemma_absorbed_after_add, lemma_add_view_twice, SubdomainMap};
use crate::text::{chars_contain, chars_eq, chars_of, split, split_chars, trim, trim_chars};
use crate::urls::parsed_url;

verus! {

/// Discovery through the crt.sh certificate search.
#[derive(Debug)]
pub struct CrtSh;

/// The names of one certificate field, one per line: each trimmed, wildcard
/// names left out.
pub open spec fn line_domains(lines: Seq<Seq<char>>) -> Seq<Seq<char>>
    decreases lines.len(),
{
    if lines.len() == 0 {
        Seq::empty()
    } else {
        let prev = line_domains(lines.drop_last());
        let d = trim(lines.last());
        if d.contains('*') {
            prev
        } else {
            prev.push(d)
        }
    }
}

/// The names of a list of certificate fields, in order.
pub open spec fn certificate_domains(name_values: Seq<Seq<char>>) -> Seq<Seq<char>>
    decreases name_values.len(),
{
    if name_values.len() == 0 {
        Seq::empty()
    } else {
        certificate_domains(name_values.drop_last()) + line_domains(split(name_values.last(), '\n'))
    }
}

/// The store after recording `https://<d>` for each name `d`, in order.
pub open spec fn add_domains(
    m: Map<Seq<char>, Set<Seq<char>>>,
    ds: Seq<Seq<char>>,
    root: Seq<char>,
) -> Map<Seq<char>, Set<Seq<char>>>
    decreases ds.len(),
{
    if ds.len() == 0 {
        m
    } else {
        add_domain(add_domains(m, ds.drop_last(), root), ds.last(), root)
    }
}

proof fn lemma_add_domain_absorbed(m: Map<Seq<char>, Set<Seq<char>>>, d: Seq<char>, other: Seq<char>, root: Seq<char>)
    requires
        add_domain(m, d, root) == m,
    ensures
        add_domain(add_domain(m, other, root), d, root) == add_domain(m, other, root),
{
    match parsed_url("https://"@ + d) {
        Some(u) => match parsed_url("https://"@ + other) {
            Some(o) => lemma_absorbed_after_add(m, u, o, root),
            None => {},
        },
        None => {},
    }
}

proof fn lemma_add_domain_twice(m: Map<Seq<char>, Set<Seq<char>>>, d: Seq<char>, root: Seq<char>)
    ensures
        add_domain(add_domain(m, d, root), d, root) == add_domain(m, d, root),
{
    match parsed_url("https://"@ + d) {
        Some(u) => lemma_add_view_twice(m, u, root),
        None => {},
    }
}

impl CrtSh {
    pub fn new() -> (r: CrtSh) {
        CrtSh
    }

    /// The source's name.
    pub fn name(&self) -> (r: &'static str)
        ensures
            r@ == "crt.sh"@,
    {
        "crt.sh"
    }

    /// The store built from the `name_value` fields of the certificates found
    /// for `root_domain`: every name that is not a wildcard is recorded as
    /// `https://<name>`. A name met again is not parsed again.
    pub fn collect(&self, name_values: &Vec<String>, root_domain: &str) -> (r: SubdomainMap)
        ensures
            r.wf(),
            r@ == add_domains(
                Map::empty(),
                certificate_domains(name_values@.map_values(|s: String| s@)),
                root_domain@,
            ),
    {
        let ghost nv = name_values@.map_values(|s: String| s@);
        let mut map = SubdomainMap::new();
        let mut seen: Vec<Vec<char>> = Vec::new();
        let ghost mut done: Seq<Seq<char>> = Seq::empty();
        let mut i: usize = 0;
        assert(nv.take(0) =~= Seq::<Seq<char>>::empty());
        while i < name_values.len()
            invariant
                i <= name_values@.len(),
                nv == name_values@.map_values(|s: String| s@),
                map.wf(),
                done == certificate_domains(nv.take(i as int)),
                map@ == add_domains(Map::empty(), done, root_domain@),
                forall|k: int| 0 <= k < seen@.len() ==> add_domain(map@, #[trigger] seen@[k]@, root_domain@) == map@,
            decreases name_values@.len() - i,
        {
            let lines = split_chars(&chars_of(name_values[i].as_str()), '\n');
            let ghost lv = lines@.map_values(|v: Vec<char>| v@);
            let ghost base = done;
            let mut j: usize = 0;
            assert(lv.take(0) =~= Seq::<Seq<char>>::empty());
            assert(base + line_domains(lv.take(0)) =~= base);
            while j < lines.len()
                invariant
                    j <= lines@.len(),
                    lv == lines@.map_values(|v: Vec<char>| v@),
                    map.wf(),
                    done == base + line_domains(lv.take(j as int)),
                    map@ == add_domains(Map::empty(), done, root_domain@),
                    forall|k: int| 0 <= k < seen@.len() ==> add_domain(map@, #[trigger] seen@[k]@, root_domain@) == map@,
                decreases lines@.len() - j,
            {
                assert(lv.take(j + 1).drop_last() =~= lv.take(j as int));
                assert(lv.take(j + 1).last() == lines@[j as int]@);
                let d = trim_chars(&lines[j]);
                if !chars_contain(&d, '*') {
                    let ghost before = map@;
                    proof {
                        assert(done.push(d@).drop_last() =~= done);
                        assert(base + line_domains(lv.take(j + 1)) =~= done.push(d@));
                        done = done.push(d@);
                    }
                    let mut found = false;
                    let mut k: usize = 0;
                    while k < seen.len()
                        invariant_except_break
                            !found,
                        invariant
                            k <= seen@.len(),
                        ensures
                            found ==> k < seen@.len() && seen@[k as int]@ == d@,
                        decreases seen@.len() - k,
                    {
                        if chars_eq(&seen[k], &d) {
                            found = true;
                            break;
                        }
                        k += 1;
                    }
                    if found {
                        assert(seen@[k as int]@ == d@);
                        assert(add_domain(map@, d@, root_domain@) == map@);
                    } else {
                        add_bare_domain(&mut map, &d, root_domain);
                        proof {
                            assert forall|k: int| 0 <= k < seen@.len() implies add_domain(map@, #[trigger] seen@[k]@, root_domain@) == map@ by {
                                lemma_add_domain_absorbed(before, seen@[k]@, d@, root_domain@);
                            }
                            lemma_add_domain_twice(before, d@, root_domain@);
                        }
                        seen.push(d);
                    }
                } else {
                    assert(base + line_domains(lv.take(j + 1)) =~= done);
                }
                j += 1;
            }
            proof {
                assert(lv.take(lines@.len() as int) =~= lv);
                assert(nv.take(i + 1).drop_last() =~= nv.take(i as int));
                assert(nv.take(i + 1).last() == name_values@[i as int]@);
            }
            i += 1;
        }
        assert(nv.take(name_values@.len() as int) =~= nv);
        map
    }
}

} // verus!
