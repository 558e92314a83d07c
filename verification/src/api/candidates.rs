//! The CDN URLs a stream can be fetched from before they are probed: its
//! primary and backup URLs and its primary URL moved to each catalog host,
//! one URL per host, ordered by host.

use vstd::prelude::*;
use crate::api::catalog;
use crate::api::cdn::{self, DashStream};
use crate::text;
use crate::url;

verus! {

broadcast use vstd::string::group_string_axioms;

/// The host of a URL, as the URL parser finds it.
pub open spec fn host_key(u: Seq<char>) -> Option<Seq<char>> {
    match url::url_parts(u) {
        Some(p) => p.1,
        None => None,
    }
}

/// The host of `url`; `None` where the URL has none or does not parse.
pub fn host(u: &str) -> (res: Option<String>)
    ensures
        match res {
            Some(h) => host_key(u@) == Some(h@),
            None => host_key(u@) is None,
        },
{
    match url::parse_url(u) {
        Some(p) => p.host,
        None => None,
    }
}

/// The order of optional hosts: none first, then hosts in the order of
/// `str`.
pub open spec fn host_lt(a: Option<Seq<char>>, b: Option<Seq<char>>) -> bool {
    match (a, b) {
        (None, Some(_)) => true,
        (Some(x), Some(y)) => catalog::lex_lt(x, y),
        _ => false,
    }
}

proof fn lemma_host_lt_irreflexive(a: Option<Seq<char>>)
    ensures
        !host_lt(a, a),
{
    if let Some(x) = a {
        catalog::lemma_lex_irreflexive(x);
    }
}

proof fn lemma_host_lt_total(a: Option<Seq<char>>, b: Option<Seq<char>>)
    ensures
        a == b || host_lt(a, b) || host_lt(b, a),
{
    if let (Some(x), Some(y)) = (a, b) {
        catalog::lemma_lex_total(x, y);
    }
}

proof fn lemma_host_lt_transitive(a: Option<Seq<char>>, b: Option<Seq<char>>, c: Option<Seq<char>>)
    requires
        host_lt(a, b),
        host_lt(b, c),
    ensures
        host_lt(a, c),
{
    if let (Some(x), Some(y), Some(z)) = (a, b, c) {
        catalog::lemma_lex_transitive(x, y, z);
    }
}

/// Entry `j` of `urls` is the first on its host.
pub open spec fn first_on_host(urls: Seq<Seq<char>>, j: int) -> bool {
    &&& 0 <= j < urls.len()
    &&& forall|k: int| 0 <= k < j ==> host_key(#[trigger] urls[k]) != host_key(urls[j])
}

/// `x` is the first URL of `urls` on its host.
pub open spec fn first_of_its_host(urls: Seq<Seq<char>>, x: Seq<char>) -> bool {
    exists|j: int| first_on_host(urls, j) && urls[j] == x
}

/// Some URL of `picked` is on host `h`.
pub open spec fn has_host(picked: Seq<Seq<char>>, h: Option<Seq<char>>) -> bool {
    exists|i: int| 0 <= i < picked.len() && host_key(picked[i]) == h
}

/// `picked` holds, of every host of `urls`, the first URL on it, and
/// nothing else, ordered by host; the URLs without a host count as one host,
/// which comes first. This is what sorting the URLs by host, stably, and
/// dropping each URL whose host equals that of the one before leaves.
pub open spec fn one_per_host(urls: Seq<Seq<char>>, picked: Seq<Seq<char>>) -> bool {
    &&& forall|i: int, j: int| 0 <= i < j < picked.len()
        ==> host_lt(host_key(#[trigger] picked[i]), host_key(#[trigger] picked[j]))
    &&& forall|i: int| 0 <= i < picked.len() ==> first_of_its_host(urls, #[trigger] picked[i])
    &&& forall|j: int| 0 <= j < urls.len() ==> has_host(picked, host_key(#[trigger] urls[j]))
}

/// No two URLs picked one per host share a host, and each picked URL
/// occurs among the URLs it was picked from.
pub proof fn lemma_one_per_host_distinct(urls: Seq<Seq<char>>, picked: Seq<Seq<char>>)
    requires
        one_per_host(urls, picked),
    ensures
        forall|i: int, j: int| 0 <= i < j < picked.len() ==> host_key(#[trigger] picked[i]) != host_key(#[trigger] picked[j]),
        forall|i: int| 0 <= i < picked.len() ==> urls.contains(#[trigger] picked[i]),
{
    assert forall|i: int, j: int| 0 <= i < j < picked.len() implies host_key(#[trigger] picked[i]) != host_key(#[trigger] picked[j]) by {
        assert(host_lt(host_key(picked[i]), host_key(picked[j])));
        lemma_host_lt_irreflexive(host_key(picked[i]));
    }
    assert forall|i: int| 0 <= i < picked.len() implies urls.contains(#[trigger] picked[i]) by {
        assert(first_of_its_host(urls, picked[i]));
        let j = choose|j: int| first_on_host(urls, j) && urls[j] == picked[i];
        assert(0 <= j < urls.len() && urls[j] == picked[i]);
    }
}

pub open spec fn opt_view(o: Option<String>) -> Option<Seq<char>> {
    match o {
        Some(s) => Some(s@),
        None => None,
    }
}

fn host_lt_exec(a: &Option<String>, b: &Option<String>) -> (res: bool)
    ensures
        res == host_lt(opt_view(*a), opt_view(*b)),
{
    match (a, b) {
        (None, Some(_)) => true,
        (Some(x), Some(y)) => catalog::text_lt(x.as_str(), y.as_str()),
        _ => false,
    }
}

fn host_eq_exec(a: &Option<String>, b: &Option<String>) -> (res: bool)
    ensures
        res == (opt_view(*a) == opt_view(*b)),
{
    match (a, b) {
        (None, None) => true,
        (Some(x), Some(y)) => text::str_eq(x.as_str(), y.as_str()),
        _ => false,
    }
}

/// Some URL of `out` is on host `h`.
pub open spec fn kept_host(out: Seq<String>, h: Option<Seq<char>>) -> bool {
    exists|p: int| 0 <= p < out.len() && host_key(out[p]@) == h
}

/// Of every host of `urls`, the first URL on it, ordered by host.
pub fn one_url_per_host(urls: &Vec<String>) -> (res: Vec<String>)
    ensures
        one_per_host(text::string_views(urls@), text::string_views(res@)),
{
    let ghost u = text::string_views(urls@);
    let mut out: Vec<String> = Vec::new();
    let mut keys: Vec<Option<String>> = Vec::new();
    let mut i: usize = 0;
    while i < urls.len()
        invariant
            i <= urls.len(),
            u == text::string_views(urls@),
            keys@.len() == out@.len(),
            forall|p: int| 0 <= p < out@.len() ==> opt_view(#[trigger] keys@[p]) == host_key(out@[p]@),
            forall|a: int, b: int| 0 <= a < b < out@.len()
                ==> host_lt(host_key((#[trigger] out@[a])@), host_key((#[trigger] out@[b])@)),
            forall|p: int| 0 <= p < out@.len()
                ==> exists|j: int| 0 <= j < i && first_on_host(u, j) && u[j] == (#[trigger] out@[p])@,
            forall|j: int| 0 <= j < i ==> kept_host(out@, host_key(#[trigger] u[j])),
        decreases urls.len() - i,
    {
        assert(u[i as int] == urls@[i as int]@);
        let k = host(urls[i].as_str());
        let ghost kv = host_key(u[i as int]);
        let mut pos: usize = 0;
        while pos < keys.len() && host_lt_exec(&keys[pos], &k)
            invariant
                pos <= keys@.len(),
                keys@.len() == out@.len(),
                forall|p: int| 0 <= p < out@.len() ==> opt_view(#[trigger] keys@[p]) == host_key(out@[p]@),
                forall|p: int| 0 <= p < pos ==> host_lt(host_key((#[trigger] out@[p])@), kv),
                opt_view(k) == kv,
            decreases keys.len() - pos,
        {
            pos = pos + 1;
        }
        let ghost before = out@;
        let ghost kbefore = keys@;
        if pos < keys.len() && host_eq_exec(&keys[pos], &k) {
            proof {
                assert(host_key(before[pos as int]@) == kv);
                assert forall|j: int| 0 <= j < i + 1 implies kept_host(out@, host_key(#[trigger] u[j])) by {
                    if j == i {
                        assert(host_key(out@[pos as int]@) == host_key(u[j]));
                    }
                }
                assert forall|p: int| 0 <= p < out@.len() implies exists|j: int| 0 <= j < i + 1 && first_on_host(u, j)
                    && u[j] == (#[trigger] out@[p])@ by {
                    let j = choose|j: int| 0 <= j < i && first_on_host(u, j) && u[j] == out@[p]@;
                    assert(0 <= j < i + 1 && first_on_host(u, j) && u[j] == out@[p]@);
                }
            }
        } else {
            proof {
                // The host of `u[i]` is not among those kept: before `pos`
                // the hosts are smaller, from `pos` on larger.
                if pos < before.len() {
                    lemma_host_lt_total(host_key(before[pos as int]@), kv);
                    assert(host_lt(kv, host_key(before[pos as int]@)));
                }
                assert forall|p: int| 0 <= p < before.len() implies host_key((#[trigger] before[p])@) != kv by {
                    lemma_host_lt_irreflexive(kv);
                    if p > pos {
                        assert(host_lt(host_key(before[pos as int]@), host_key(before[p]@)));
                        lemma_host_lt_transitive(kv, host_key(before[pos as int]@), host_key(before[p]@));
                    }
                }
                assert forall|k2: int| 0 <= k2 < i implies host_key(#[trigger] u[k2]) != host_key(u[i as int]) by {
                    assert(kept_host(before, host_key(u[k2])));
                    let p = choose|p: int| 0 <= p < before.len() && host_key(before[p]@) == host_key(u[k2]);
                    assert(host_key(before[p]@) != kv);
                }
                assert(first_on_host(u, i as int));
            }
            let x = text::to_owned_string(urls[i].as_str());
            out.insert(pos, x);
            keys.insert(pos, k);
            proof {
                assert(out@[pos as int]@ == u[i as int]);
                assert forall|p: int| 0 <= p < out@.len() implies opt_view(#[trigger] keys@[p]) == host_key(out@[p]@) by {
                    if p < pos {
                        assert(keys@[p] == kbefore[p] && out@[p] == before[p]);
                    } else if p > pos {
                        assert(keys@[p] == kbefore[p - 1] && out@[p] == before[p - 1]);
                    }
                }
                assert forall|a: int, b: int| 0 <= a < b < out@.len()
                    implies host_lt(host_key((#[trigger] out@[a])@), host_key((#[trigger] out@[b])@)) by {
                    if b < pos {
                        assert(out@[a] == before[a] && out@[b] == before[b]);
                    } else if b == pos {
                        assert(out@[a] == before[a]);
                    } else if a == pos {
                        assert(out@[b] == before[b - 1]);
                        if b - 1 > pos {
                            lemma_host_lt_transitive(kv, host_key(before[pos as int]@), host_key(before[b - 1]@));
                        }
                    } else if a < pos {
                        assert(out@[a] == before[a] && out@[b] == before[b - 1]);
                    } else {
                        assert(out@[a] == before[a - 1] && out@[b] == before[b - 1]);
                    }
                }
                assert forall|p: int| 0 <= p < out@.len() implies exists|j: int| 0 <= j < i + 1 && first_on_host(u, j)
                    && u[j] == (#[trigger] out@[p])@ by {
                    if p == pos {
                        assert(0 <= i < i + 1 && first_on_host(u, i as int) && u[i as int] == out@[p]@);
                    } else {
                        let q = if p < pos { p } else { p - 1 };
                        assert(out@[p] == before[q]);
                        let j = choose|j: int| 0 <= j < i && first_on_host(u, j) && u[j] == before[q]@;
                        assert(0 <= j < i + 1 && first_on_host(u, j) && u[j] == out@[p]@);
                    }
                }
                assert forall|j: int| 0 <= j < i + 1 implies kept_host(out@, host_key(#[trigger] u[j])) by {
                    if j == i {
                        assert(host_key(out@[pos as int]@) == host_key(u[j]));
                    } else {
                        assert(kept_host(before, host_key(u[j])));
                        let q = choose|q: int| 0 <= q < before.len() && host_key(before[q]@) == host_key(u[j]);
                        let p = if q < pos { q } else { q + 1 };
                        assert(out@[p] == before[q]);
                    }
                }
            }
        }
        i = i + 1;
    }
    proof {
        let r = text::string_views(out@);
        assert forall|p: int| 0 <= p < r.len() implies first_of_its_host(u, #[trigger] r[p]) by {
            assert(r[p] == out@[p]@);
            let j = choose|j: int| 0 <= j < i && first_on_host(u, j) && u[j] == out@[p]@;
            assert(first_on_host(u, j) && u[j] == r[p]);
        }
        assert forall|j: int| 0 <= j < u.len() implies has_host(r, host_key(#[trigger] u[j])) by {
            assert(kept_host(out@, host_key(u[j])));
            let p = choose|p: int| 0 <= p < out@.len() && host_key(out@[p]@) == host_key(u[j]);
            assert(r[p] == out@[p]@);
        }
        assert forall|a: int, b: int| 0 <= a < b < r.len() implies host_lt(host_key(#[trigger] r[a]), host_key(#[trigger] r[b])) by {
            assert(r[a] == out@[a]@ && r[b] == out@[b]@);
        }
    }
    out
}

/// The primary URL of a stream: the snake-case field, else the camel-case
/// one.
pub open spec fn primary_of(s: DashStream) -> Option<Seq<char>> {
    match s.base_url {
        Some(b) => Some(b@),
        None => match s.base_url_camel {
            Some(c) => Some(c@),
            None => None,
        },
    }
}

/// `primary` moved to each of `hosts` that the URL parser accepts, in order.
pub open spec fn rehosted_all(primary: Seq<char>, hosts: Seq<Seq<char>>) -> Seq<Seq<char>>
    decreases hosts.len(),
{
    if hosts.len() == 0 {
        seq![]
    } else {
        let rest = rehosted_all(primary, hosts.drop_last());
        match url::rehosted(primary, hosts.last()) {
            Some(u) => rest.push(u),
            None => rest,
        }
    }
}

/// Every URL a stream can be fetched from: its primary URL, its backup URLs,
/// and its primary URL moved to each catalog host; `None` without a
/// primary URL. The media path and its signature stay as they are, since an
/// UPOS signature holds on any UPOS edge.
pub open spec fn candidate_list(s: DashStream, catalog_hosts: Seq<Seq<char>>) -> Option<Seq<Seq<char>>> {
    match primary_of(s) {
        Some(p) => Some(seq![p] + cdn::opt_strings(s.backup_url) + cdn::opt_strings(s.backup_url_camel)
            + rehosted_all(p, catalog_hosts)),
        None => None,
    }
}

/// The stream has no primary URL.
#[derive(Debug, Clone, Copy, PartialEq, Eq)]
pub struct NoPrimaryUrl;

/// The URLs to probe for a stream: of the URLs it can be fetched from, the
/// first on each host, ordered by host.
pub fn candidate_urls(stream: &DashStream, catalog_hosts: &Vec<String>) -> (res: Result<Vec<String>, NoPrimaryUrl>)
    ensures
        match candidate_list(*stream, text::string_views(catalog_hosts@)) {
            Some(all) => (res matches Ok(v) && one_per_host(all, text::string_views(v@))),
            None => res is Err,
        },
{
    let primary = match stream.primary_url() {
        Some(p) => p,
        None => return Err(NoPrimaryUrl),
    };
    let mut all: Vec<String> = Vec::new();
    all.push(text::to_owned_string(primary));
    let backups = stream.backup_urls();
    let mut b: usize = 0;
    while b < backups.len()
        invariant
            b <= backups@.len(),
            text::string_views(all@) == seq![primary@] + backups@.map_values(|s: &String| s@).take(b as int),
        decreases backups.len() - b,
    {
        let ghost before = all@;
        all.push(text::to_owned_string(backups[b].as_str()));
        assert(text::string_views(all@) =~= text::string_views(before).push(backups@[b as int]@));
        assert(backups@.map_values(|s: &String| s@).take(b + 1)
            =~= backups@.map_values(|s: &String| s@).take(b as int).push(backups@[b as int]@));
        b = b + 1;
    }
    assert(backups@.map_values(|s: &String| s@).take(backups.len() as int) =~= backups@.map_values(|s: &String| s@));
    let ghost head = text::string_views(all@);
    let ghost hosts = text::string_views(catalog_hosts@);
    let mut h: usize = 0;
    while h < catalog_hosts.len()
        invariant
            h <= catalog_hosts@.len(),
            hosts == text::string_views(catalog_hosts@),
            text::string_views(all@) == head + rehosted_all(primary@, hosts.take(h as int)),
        decreases catalog_hosts.len() - h,
    {
        let ghost before = all@;
        assert(hosts.take(h + 1).drop_last() =~= hosts.take(h as int));
        assert(hosts.take(h + 1).last() == catalog_hosts@[h as int]@);
        match url::rehost(primary, catalog_hosts[h].as_str()) {
            Some(moved) => {
                all.push(moved);
                assert(text::string_views(all@) =~= text::string_views(before).push(all@.last()@));
            },
            None => {},
        }
        h = h + 1;
    }
    assert(hosts.take(catalog_hosts.len() as int) =~= hosts);
    assert(primary_of(*stream) == Some(primary@));
    assert(text::string_views(all@) =~= seq![primary@] + cdn::opt_strings(stream.backup_url)
        + cdn::opt_strings(stream.backup_url_camel) + rehosted_all(primary@, hosts));
    Ok(one_url_per_host(&all))
}

} // verus!
