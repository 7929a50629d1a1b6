//! The web-archive source: hosts of the URLs that the Wayback Machine has
//! captured under the root domain.

use vstd::prelude::*;
use crate::subdomains::{add_view, SubdomainMap};
use crate::text::{chars_of, lower_of, string_from_chars, to_lower, trim, trim_chars};
use crate::urls::{parse_url, parsed_url};

verus! {

/// Discovery through the Wayback Machine's capture index.
#[derive(Debug)]
pub struct WaybackArchive;

/// What `serde_json::from_str` reads from a text as an array of arrays of
/// strings: `None` where the text is not one.
pub uninterp spec fn json_string_rows(text: Seq<char>) -> Option<Seq<Seq<Seq<char>>>>;

/// The rows of an optional decoded answer.
pub open spec fn opt_rows_view(r: Option<Vec<Vec<String>>>) -> Option<Seq<Seq<Seq<char>>>> {
    match r {
        Some(v) => Some(v.deep_view()),
        None => None,
    }
}

/// Relies on `serde_json::from_str`, reading the text as `Vec<Vec<String>>`.
#[verifier::external_body]
fn decode_rows(text: &str) -> (r: Option<Vec<Vec<String>>>)
    ensures
        opt_rows_view(r) == json_string_rows(text@),
{
    serde_json::from_str::<Vec<Vec<String>>>(text).ok()
}

/// The records of an index answer: every row but the header.
pub open spec fn records(rows: Seq<Seq<Seq<char>>>) -> Seq<Seq<Seq<char>>> {
    if rows.len() == 0 {
        rows
    } else {
        rows.drop_first()
    }
}

/// One record, given the store so far and the (trimmed, lower-cased) hosts
/// already met: the first URL met on a host is recorded, later ones on the
/// same host are passed over; a record without a URL that parses, or whose URL
/// has no host, changes nothing.
pub open spec fn archive_step(
    st: (Map<Seq<char>, Set<Seq<char>>>, Set<Seq<char>>),
    row: Seq<Seq<char>>,
    root: Seq<char>,
) -> (Map<Seq<char>, Set<Seq<char>>>, Set<Seq<char>>) {
    if row.len() == 0 {
        st
    } else {
        match parsed_url(row[0]) {
            None => st,
            Some(u) => match u.host {
                None => st,
                Some(h) => {
                    let key = lower_of(trim(h));
                    if st.1.contains(key) {
                        st
                    } else {
                        (add_view(st.0, u, root), st.1.insert(key))
                    }
                },
            },
        }
    }
}

/// The store and the hosts met after a list of records, in order.
pub open spec fn archive_rows(
    rows: Seq<Seq<Seq<char>>>,
    root: Seq<char>,
) -> (Map<Seq<char>, Set<Seq<char>>>, Set<Seq<char>>)
    decreases rows.len(),
{
    if rows.len() == 0 {
        (Map::empty(), Set::empty())
    } else {
        archive_step(archive_rows(rows.drop_last(), root), rows.last(), root)
    }
}

impl WaybackArchive {
    pub fn new() -> (r: WaybackArchive) {
        WaybackArchive
    }

    /// The source's name.
    pub fn name(&self) -> (r: &'static str)
        ensures
            r@ == "Wayback Machine"@,
    {
        "Wayback Machine"
    }

    /// The store built from the rows of an index answer; the first row is the
    /// header.
    pub fn collect_rows(&self, rows: &Vec<Vec<String>>, root_domain: &str) -> (r: SubdomainMap)
        ensures
            r.wf(),
            r@ == archive_rows(records(rows.deep_view()), root_domain@).0,
    {
        let ghost all = rows.deep_view();
        let ghost recs = records(all);
        let mut map = SubdomainMap::new();
        let mut seen: Vec<String> = Vec::new();
        if rows.len() == 0 {
            return map;
        }
        let mut i: usize = 1;
        assert(recs.take(0) =~= Seq::<Seq<Seq<char>>>::empty());
        assert(seen@.map_values(|s: String| s@).to_set() =~= Set::empty());
        while i < rows.len()
            invariant
                1 <= i <= rows@.len(),
                all == rows.deep_view(),
                recs == all.drop_first(),
                map.wf(),
                map@ == archive_rows(recs.take(i - 1), root_domain@).0,
                archive_rows(recs.take(i - 1), root_domain@).1 == seen@.map_values(|s: String| s@).to_set(),
            decreases rows@.len() - i,
        {
            let ghost prev = archive_rows(recs.take(i - 1), root_domain@);
            proof {
                assert(recs.take(i as int).drop_last() =~= recs.take(i - 1));
                assert(recs.take(i as int).last() == all[i as int]);
                assert(all[i as int] == rows@[i as int].deep_view());
            }
            let row = &rows[i];
            if row.len() > 0 {
                assert(row.deep_view()[0] == row@[0]@);
                match parse_url(row[0].as_str()) {
                    None => {},
                    Some(u) => match &u.host {
                        None => {},
                        Some(h) => {
                            let key = to_lower(string_from_chars(&trim_chars(&chars_of(h.as_str()))).as_str());
                            let mut found = false;
                            let mut k: usize = 0;
                            while k < seen.len()
                                invariant_except_break
                                    !found,
                                invariant
                                    k <= seen@.len(),
                                    forall|j: int| 0 <= j < k ==> seen@[j]@ != key@,
                                ensures
                                    found ==> k < seen@.len() && seen@[k as int]@ == key@,
                                    !found ==> forall|j: int| 0 <= j < seen@.len() ==> seen@[j]@ != key@,
                                decreases seen@.len() - k,
                            {
                                if seen[k] == key {
                                    found = true;
                                    break;
                                }
                                k += 1;
                            }
                            if !found {
                                map.add_url(&u, root_domain);
                                let ghost kv = key@;
                                let ghost old_sv = seen@.map_values(|s: String| s@);
                                seen.push(key);
                                let ghost sv = seen@.map_values(|s: String| s@);
                                assert(sv =~= old_sv.push(kv));
                                proof {
                                    old_sv.lemma_push_to_set_commute(kv);
                                }
                            } else {
                                assert(seen@.map_values(|s: String| s@)[k as int] == key@);
                                assert(prev.1.contains(key@));
                            }
                        },
                    },
                }
            }
            i += 1;
        }
        assert(recs.take(rows@.len() - 1) =~= recs);
        map
    }

    /// The store built from the text of an index answer; `None` where the text
    /// is not a JSON array of arrays of strings.
    pub fn from_response(&self, body: &str, root_domain: &str) -> (r: Option<SubdomainMap>)
        ensures
            match json_string_rows(body@) {
                None => r is None,
                Some(rows) => r matches Some(m) && m.wf() && m@ == archive_rows(records(rows), root_domain@).0,
            },
    {
        match decode_rows(body) {
            None => None,
            Some(rows) => Some(self.collect_rows(&rows, root_domain)),
        }
    }
}

} // verus!
