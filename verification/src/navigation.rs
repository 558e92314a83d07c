//! Navigation state of the client: the page to return to, and the tracking
//! of in-flight requests so that only the answer to the latest request of
//! each kind is applied.

use vstd::prelude::*;
use crate::text;

verus! {

/// The page to return to when leaving a detail page.
#[derive(Debug, Clone)]
pub enum PreviousPage {
    Home,
    Search,
    Dynamic,
    History,
    Live,
    Bangumi,
    VideoDetail { bvid: String, aid: i64 },
}

/// The tracker as a mathematical value: the last id handed out, and the
/// latest id of each request kind.
pub struct TrackerModel {
    pub seq: u64,
    pub latest: Map<Seq<char>, u64>,
}

pub open spec fn map_of(entries: Seq<(String, u64)>) -> Map<Seq<char>, u64>
    decreases entries.len(),
{
    if entries.len() == 0 {
        Map::empty()
    } else {
        map_of(entries.drop_last()).insert(entries.last().0@, entries.last().1)
    }
}

pub open spec fn keys_unique(entries: Seq<(String, u64)>) -> bool {
    forall|i: int, j: int| 0 <= i < j < entries.len() ==> (#[trigger] entries[i]).0@ != (#[trigger] entries[j]).0@
}

proof fn lemma_map_of_absent(entries: Seq<(String, u64)>, k: Seq<char>)
    requires
        forall|i: int| 0 <= i < entries.len() ==> (#[trigger] entries[i]).0@ != k,
    ensures
        !map_of(entries).contains_key(k),
    decreases entries.len(),
{
    if entries.len() > 0 {
        lemma_map_of_absent(entries.drop_last(), k);
    }
}

proof fn lemma_map_of_at(entries: Seq<(String, u64)>, i: int)
    requires
        keys_unique(entries),
        0 <= i < entries.len(),
    ensures
        map_of(entries).contains_key(entries[i].0@),
        map_of(entries)[entries[i].0@] == entries[i].1,
    decreases entries.len(),
{
    if i < entries.len() - 1 {
        lemma_map_of_at(entries.drop_last(), i);
        assert(entries.drop_last()[i] == entries[i]);
        assert(entries[i].0@ != entries[entries.len() - 1].0@);
    }
}

proof fn lemma_map_of_update(entries: Seq<(String, u64)>, i: int, v: u64)
    requires
        keys_unique(entries),
        0 <= i < entries.len(),
    ensures
        map_of(entries.update(i, (entries[i].0, v))) == map_of(entries).insert(entries[i].0@, v),
    decreases entries.len(),
{
    let u = entries.update(i, (entries[i].0, v));
    if i == entries.len() - 1 {
        assert(u.drop_last() =~= entries.drop_last());
        lemma_map_of_absent(entries.drop_last(), entries[i].0@);
        assert(map_of(entries).insert(entries[i].0@, v) =~= map_of(entries.drop_last()).insert(entries[i].0@, v));
    } else {
        assert(u.drop_last() =~= entries.drop_last().update(i, (entries[i].0, v)));
        assert(keys_unique(entries.drop_last()));
        lemma_map_of_update(entries.drop_last(), i, v);
        assert(entries[i].0@ != entries.last().0@);
        assert(map_of(u) =~= map_of(entries).insert(entries[i].0@, v));
    }
}

/// The id that the next request gets: one more than the last, stopping at
/// the maximum.
pub open spec fn next_id(seq: u64) -> u64 {
    if seq == u64::MAX { u64::MAX } else { (seq + 1) as u64 }
}

/// The tracker after a request of kind `key` is issued, and the request's id.
pub open spec fn issued(t: TrackerModel, key: Seq<char>) -> (TrackerModel, u64) {
    let id = next_id(t.seq);
    (TrackerModel { seq: id, latest: t.latest.insert(key, id) }, id)
}

/// Whether `id` is the latest request of kind `key`.
pub open spec fn is_latest(t: TrackerModel, key: Seq<char>, id: u64) -> bool {
    t.latest.contains_key(key) && t.latest[key] == id
}

/// The index of the entry of kind `key`.
fn find_key(entries: &Vec<(String, u64)>, key: &str) -> (res: Option<usize>)
    ensures
        match res {
            Some(i) => i < entries@.len() && entries@[i as int].0@ == key@,
            None => forall|i: int| 0 <= i < entries@.len() ==> (#[trigger] entries@[i]).0@ != key@,
        },
{
    let mut i: usize = 0;
    while i < entries.len()
        invariant
            i <= entries@.len(),
            forall|j: int| 0 <= j < i ==> (#[trigger] entries@[j]).0@ != key@,
        decreases entries.len() - i,
    {
        if text::str_eq(entries[i].0.as_str(), key) {
            return Some(i);
        }
        i = i + 1;
    }
    None
}

/// Ids handed out to requests, and the latest id of each kind.
pub struct RequestTracker {
    request_seq: u64,
    pending: Vec<(String, u64)>,
}

impl View for RequestTracker {
    type V = TrackerModel;

    closed spec fn view(&self) -> TrackerModel {
        TrackerModel { seq: self.request_seq, latest: map_of(self.pending@) }
    }
}

impl RequestTracker {
    #[verifier::type_invariant]
    closed spec fn inv(self) -> bool {
        keys_unique(self.pending@)
    }

    /// A tracker before any request.
    pub fn new() -> (res: RequestTracker)
        ensures
            res@.seq == 0,
            res@.latest == Map::<Seq<char>, u64>::empty(),
    {
        RequestTracker { request_seq: 0, pending: Vec::new() }
    }

    /// Issues a request of kind `key`: it gets the next id, which becomes the
    /// latest of its kind.
    pub fn next_request_id(&mut self, key: &str) -> (id: u64)
        ensures
            (final(self)@, id) == issued(old(self)@, key@),
    {
        proof { use_type_invariant(&*self); }
        self.request_seq = self.request_seq.saturating_add(1);
        let id = self.request_seq;
        let ghost old_entries = self.pending@;
        let mut entries: Vec<(String, u64)> = Vec::new();
        std::mem::swap(&mut entries, &mut self.pending);
        match find_key(&entries, key) {
            Some(i) => {
                let name = entries[i].0.clone();
                proof { lemma_map_of_update(old_entries, i as int, id); }
                entries.set(i, (name, id));
                assert(entries@ == old_entries.update(i as int, (old_entries[i as int].0, id)));
                assert(keys_unique(entries@)) by {
                    assert forall|a: int, b: int| 0 <= a < b < entries@.len() implies (#[trigger] entries@[a]).0@ != (#[trigger] entries@[b]).0@ by {
                        assert(old_entries[a].0@ != old_entries[b].0@);
                    }
                }
            },
            None => {
                entries.push((text::to_owned_string(key), id));
                assert(entries@.drop_last() =~= old_entries);
                assert(keys_unique(entries@)) by {
                    assert forall|a: int, b: int| 0 <= a < b < entries@.len() implies (#[trigger] entries@[a]).0@ != (#[trigger] entries@[b]).0@ by {
                        if b == entries@.len() - 1 {
                            assert(old_entries[a].0@ != key@);
                        } else {
                            assert(old_entries[a].0@ != old_entries[b].0@);
                        }
                    }
                }
            },
        }
        self.pending = entries;
        id
    }

    /// Whether `req_id` is the latest request of kind `key`.
    pub fn is_latest_request(&self, key: &str, req_id: u64) -> (res: bool)
        ensures
            res == is_latest(self@, key@, req_id),
    {
        proof { use_type_invariant(self); }
        match find_key(&self.pending, key) {
            Some(i) => {
                proof { lemma_map_of_at(self.pending@, i as int); }
                self.pending[i].1 == req_id
            },
            None => {
                proof { lemma_map_of_absent(self.pending@, key@); }
                false
            },
        }
    }
}

/// A request is the latest of its kind until another of that kind is
/// issued; then only the newer one is, as long as ids have not reached
/// their maximum.
pub proof fn lemma_latest_wins(t: TrackerModel, key: Seq<char>)
    requires
        t.seq < u64::MAX - 1,
    ensures
        is_latest(issued(t, key).0, key, issued(t, key).1),
        ({
            let (t1, first) = issued(t, key);
            let (t2, second) = issued(t1, key);
            !is_latest(t2, key, first) && is_latest(t2, key, second)
        }),
{
}

/// Issuing a request of one kind leaves which request is the latest of any
/// other kind unchanged.
pub proof fn lemma_kinds_isolated(t: TrackerModel, key: Seq<char>, other: Seq<char>, id: u64)
    requires
        key != other,
    ensures
        is_latest(issued(t, key).0, other, id) == is_latest(t, other, id),
{
}

/// Ids grow with every request until they reach their maximum.
pub proof fn lemma_ids_increase(t: TrackerModel, key: Seq<char>)
    requires
        t.seq < u64::MAX,
    ensures
        issued(t, key).1 > t.seq,
        issued(t, key).0.seq == issued(t, key).1,
{
}

} // verus!
