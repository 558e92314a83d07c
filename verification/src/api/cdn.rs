//! DASH play-URL models, the choice of streams, and the per-host CDN
//! ledger of playback outcomes and probe results.

use vstd::prelude::*;
use crate::text;

verus! {

#[derive(Debug, Clone)]
pub struct PlayUrlData {
    pub dash: Dash,
}

#[derive(Debug, Clone)]
pub struct Dash {
    pub video: Vec<DashStream>,
    pub audio: Vec<DashStream>,
    pub dolby: Option<Dolby>,
    pub flac: Option<Flac>,
}

#[derive(Debug, Clone)]
pub struct Dolby {
    pub audio: Option<Vec<DashStream>>,
}

#[derive(Debug, Clone)]
pub struct Flac {
    pub audio: Option<DashStream>,
}

#[derive(Debug, Clone)]
pub struct DashStream {
    pub id: i64,
    pub bandwidth: i64,
    pub codecid: i64,
    pub base_url: Option<String>,
    pub base_url_camel: Option<String>,
    pub backup_url: Option<Vec<String>>,
    pub backup_url_camel: Option<Vec<String>>,
}

pub open spec fn opt_strings(v: Option<Vec<String>>) -> Seq<Seq<char>> {
    match v {
        Some(v) => v@.map_values(|s: String| s@),
        None => seq![],
    }
}

impl DashStream {
    /// The primary URL: the snake-case field, else the camel-case one.
    pub fn primary_url(&self) -> (res: Option<&str>)
        ensures
            match res {
                Some(u) => (match self.base_url {
                    Some(b) => u@ == b@,
                    None => self.base_url_camel matches Some(c) && u@ == c@,
                }),
                None => self.base_url is None && self.base_url_camel is None,
            },
    {
        match &self.base_url {
            Some(b) => Some(b.as_str()),
            None => match &self.base_url_camel {
                Some(c) => Some(c.as_str()),
                None => None,
            },
        }
    }

    /// The backup URLs: the snake-case list, then the camel-case one.
    pub fn backup_urls(&self) -> (res: Vec<&String>)
        ensures
            res@.map_values(|s: &String| s@) == opt_strings(self.backup_url) + opt_strings(self.backup_url_camel),
    {
        let mut out: Vec<&String> = Vec::new();
        assert(out@.map_values(|s: &String| s@) =~= Seq::<Seq<char>>::empty());
        if let Some(list) = &self.backup_url {
            let mut i: usize = 0;
            while i < list.len()
                invariant
                    i <= list.len(),
                    out@.map_values(|s: &String| s@) == list@.take(i as int).map_values(|s: String| s@),
                decreases list.len() - i,
            {
                let ghost before = out@;
                let r = &list[i];
                out.push(r);
                assert(out@.map_values(|s: &String| s@) =~= before.map_values(|s: &String| s@).push(r@));
                assert(list@.take(i + 1).map_values(|s: String| s@) =~= list@.take(i as int).map_values(|s: String| s@).push(list@[i as int]@));
                i = i + 1;
            }
            assert(list@.take(list.len() as int) =~= list@);
        }
        let ghost first = out@.map_values(|s: &String| s@);
        assert(first == opt_strings(self.backup_url));
        if let Some(list) = &self.backup_url_camel {
            let mut i: usize = 0;
            while i < list.len()
                invariant
                    i <= list.len(),
                    out@.map_values(|s: &String| s@) == first + list@.take(i as int).map_values(|s: String| s@),
                decreases list.len() - i,
            {
                let ghost before = out@;
                let r = &list[i];
                out.push(r);
                assert(out@.map_values(|s: &String| s@) =~= before.map_values(|s: &String| s@).push(r@));
                assert(list@.take(i + 1).map_values(|s: String| s@) =~= list@.take(i as int).map_values(|s: String| s@).push(list@[i as int]@));
                assert(first + list@.take(i + 1).map_values(|s: String| s@) =~= (first + list@.take(i as int).map_values(|s: String| s@)).push(r@));
                i = i + 1;
            }
            assert(list@.take(list.len() as int) =~= list@);
        } else {
            assert(first + Seq::<Seq<char>>::empty() =~= first);
        }
        out
    }
}

/// `(a1, a2) < (b1, b2)` in lexicographic order.
pub open spec fn key_lt(a1: i64, a2: i64, b1: i64, b2: i64) -> bool {
    a1 < b1 || (a1 == b1 && a2 < b2)
}

/// Index `i` holds a video stream within the cap whose `(id, bandwidth)` is
/// the largest, and the last of those that share it (`Iterator::max_by_key`).
pub open spec fn is_best_video(v: Seq<DashStream>, max_qn: i64, i: int) -> bool {
    &&& 0 <= i < v.len()
    &&& v[i].id <= max_qn
    &&& forall|j: int| 0 <= j < v.len() && (#[trigger] v[j]).id <= max_qn ==> !key_lt(v[i].id, v[i].bandwidth, v[j].id, v[j].bandwidth)
    &&& forall|j: int| i < j < v.len() && (#[trigger] v[j]).id <= max_qn ==> key_lt(v[j].id, v[j].bandwidth, v[i].id, v[i].bandwidth)
}

/// No stream of the response fits the quality cap.
#[derive(Debug, Clone, Copy, PartialEq, Eq)]
pub struct NoStreamWithinCap;

/// The video stream to play under a quality cap: of the streams whose id is
/// at most `max_qn`, the one with the largest `(id, bandwidth)` (the last
/// one on ties).
pub fn select_video_stream(data: &PlayUrlData, max_qn: i64) -> (res: Result<&DashStream, NoStreamWithinCap>)
    ensures
        match res {
            Ok(s) => exists|i: int| is_best_video(data.dash.video@, max_qn, i) && data.dash.video@[i] == *s,
            Err(_) => forall|j: int| 0 <= j < data.dash.video@.len() ==> (#[trigger] data.dash.video@[j]).id > max_qn,
        },
{
    let v = &data.dash.video;
    let mut best: Option<usize> = None;
    let mut i: usize = 0;
    while i < v.len()
        invariant
            i <= v.len(),
            match best {
                Some(b) => b < i && is_best_video(v@.take(i as int), max_qn, b as int),
                None => forall|j: int| 0 <= j < i ==> (#[trigger] v@[j]).id > max_qn,
            },
        decreases v.len() - i,
    {
        let s = &v[i];
        if s.id <= max_qn {
            match best {
                None => {
                    best = Some(i);
                },
                Some(b) => {
                    if !key_lt_exec(s.id, s.bandwidth, v[b].id, v[b].bandwidth) {
                        best = Some(i);
                    }
                },
            }
        }
        let ghost t = v@.take(i + 1);
        assert(forall|j: int| 0 <= j < i ==> t[j] == v@.take(i as int)[j]);
        i = i + 1;
    }
    assert(v@.take(v.len() as int) =~= v@);
    match best {
        Some(b) => Ok(&v[b]),
        None => Err(NoStreamWithinCap),
    }
}

fn key_lt_exec(a1: i64, a2: i64, b1: i64, b2: i64) -> (res: bool)
    ensures
        res == key_lt(a1, a2, b1, b2),
{
    a1 < b1 || (a1 == b1 && a2 < b2)
}

/// The audio streams to choose from: the plain ones, then Dolby's, then
/// the FLAC one.
pub open spec fn audio_candidates(d: Dash) -> Seq<DashStream> {
    d.audio@ + (match d.dolby {
        Some(Dolby { audio: Some(v) }) => v@,
        _ => seq![],
    }) + (match d.flac {
        Some(Flac { audio: Some(s) }) => seq![s],
        _ => seq![],
    })
}

/// Index `i` holds a candidate of the largest bandwidth, the last of those
/// that share it (`Iterator::max_by_key`).
pub open spec fn is_best_audio(c: Seq<DashStream>, i: int) -> bool {
    &&& 0 <= i < c.len()
    &&& forall|j: int| 0 <= j < c.len() ==> (#[trigger] c[j]).bandwidth <= c[i].bandwidth
    &&& forall|j: int| i < j < c.len() ==> (#[trigger] c[j]).bandwidth < c[i].bandwidth
}

/// The response has no audio stream.
#[derive(Debug, Clone, Copy, PartialEq, Eq)]
pub struct NoAudioStream;

fn push_streams<'a>(out: &mut Vec<&'a DashStream>, v: &'a Vec<DashStream>)
    ensures
        final(out)@.map_values(|s: &DashStream| *s) == old(out)@.map_values(|s: &DashStream| *s) + v@,
{
    let mut i: usize = 0;
    while i < v.len()
        invariant
            i <= v.len(),
            out@.map_values(|s: &DashStream| *s) == old(out)@.map_values(|s: &DashStream| *s) + v@.take(i as int),
        decreases v.len() - i,
    {
        let ghost before = out@;
        out.push(&v[i]);
        assert(out@.map_values(|s: &DashStream| *s) =~= before.map_values(|s: &DashStream| *s).push(v@[i as int]));
        assert(v@.take(i + 1) =~= v@.take(i as int).push(v@[i as int]));
        i = i + 1;
    }
    assert(v@.take(v.len() as int) =~= v@);
}

/// The audio stream to play: the candidate of the largest bandwidth (the
/// last one on ties).
pub fn select_audio_stream(data: &PlayUrlData) -> (res: Result<&DashStream, NoAudioStream>)
    ensures
        match res {
            Ok(s) => exists|i: int| is_best_audio(audio_candidates(data.dash), i)
                && audio_candidates(data.dash)[i] == *s,
            Err(_) => audio_candidates(data.dash).len() == 0,
        },
{
    let mut cands: Vec<&DashStream> = Vec::new();
    assert(cands@.map_values(|s: &DashStream| *s) =~= Seq::<DashStream>::empty());
    push_streams(&mut cands, &data.dash.audio);
    let ghost after_plain = cands@.map_values(|s: &DashStream| *s);
    match &data.dash.dolby {
        Some(d) => match &d.audio {
            Some(v) => push_streams(&mut cands, v),
            None => {},
        },
        None => {},
    }
    let ghost after_dolby = cands@.map_values(|s: &DashStream| *s);
    match &data.dash.flac {
        Some(f) => match &f.audio {
            Some(s) => {
                cands.push(s);
                assert(cands@.map_values(|s: &DashStream| *s) =~= after_dolby.push(*s));
            },
            None => {},
        },
        None => {},
    }
    let ghost c = cands@.map_values(|s: &DashStream| *s);
    assert(c =~= audio_candidates(data.dash));
    if cands.len() == 0 {
        return Err(NoAudioStream);
    }
    let mut best: usize = 0;
    let mut i: usize = 1;
    while i < cands.len()
        invariant
            1 <= i <= cands.len(),
            c == cands@.map_values(|s: &DashStream| *s),
            best < i,
            is_best_audio(c.take(i as int), best as int),
        decreases cands.len() - i,
    {
        let ghost t = c.take(i + 1);
        assert(forall|j: int| 0 <= j < i ==> t[j] == c.take(i as int)[j]);
        if cands[i].bandwidth >= cands[best].bandwidth {
            best = i;
        }
        i = i + 1;
    }
    assert(c.take(cands.len() as int) =~= c);
    Ok(cands[best])
}

// ---------------------------------------------------------------------------
// The per-host ledger
// ---------------------------------------------------------------------------

/// The bit pattern of an `f64` (`f64::to_bits`), carried through unchanged.
#[derive(Debug, Clone, Copy, PartialEq, Eq, Structural)]
pub struct F64Bits(pub u64);

/// What is recorded of one CDN host.
#[derive(Debug, Clone, Copy, PartialEq, Eq, Structural)]
pub struct CdnHistory {
    pub attempts: u64,
    pub corruptions: u64,
    pub probe_samples: u64,
    pub probe_failures: u64,
    pub last_probe_ok: bool,
    pub latency_ms: F64Bits,
    pub throughput_bps: F64Bits,
    pub last_probed_at: i64,
    pub video_score: Option<F64Bits>,
    pub video_speed_ratio: Option<F64Bits>,
    pub video_bandwidth: Option<i64>,
    pub audio_score: Option<F64Bits>,
    pub audio_speed_ratio: Option<F64Bits>,
    pub audio_bandwidth: Option<i64>,
    pub catalog_reachable: Option<bool>,
    pub catalog_latency_ms: Option<F64Bits>,
    pub catalog_probed_at: i64,
}

/// A host nothing is recorded of: counters at zero, `0.0` measurements, no
/// scores.
pub open spec fn empty_history() -> CdnHistory {
    CdnHistory {
        attempts: 0,
        corruptions: 0,
        probe_samples: 0,
        probe_failures: 0,
        last_probe_ok: false,
        latency_ms: F64Bits(0),
        throughput_bps: F64Bits(0),
        last_probed_at: 0,
        video_score: None,
        video_speed_ratio: None,
        video_bandwidth: None,
        audio_score: None,
        audio_speed_ratio: None,
        audio_bandwidth: None,
        catalog_reachable: None,
        catalog_latency_ms: None,
        catalog_probed_at: 0,
    }
}

impl CdnHistory {
    /// A host nothing is recorded of.
    pub fn empty() -> (res: CdnHistory)
        ensures
            res == empty_history(),
    {
        CdnHistory {
            attempts: 0,
            corruptions: 0,
            probe_samples: 0,
            probe_failures: 0,
            last_probe_ok: false,
            latency_ms: F64Bits(0),
            throughput_bps: F64Bits(0),
            last_probed_at: 0,
            video_score: None,
            video_speed_ratio: None,
            video_bandwidth: None,
            audio_score: None,
            audio_speed_ratio: None,
            audio_bandwidth: None,
            catalog_reachable: None,
            catalog_latency_ms: None,
            catalog_probed_at: 0,
        }
    }
}

pub open spec fn map_of(entries: Seq<(String, CdnHistory)>) -> Map<Seq<char>, CdnHistory>
    decreases entries.len(),
{
    if entries.len() == 0 {
        Map::empty()
    } else {
        map_of(entries.drop_last()).insert(entries.last().0@, entries.last().1)
    }
}

pub open spec fn keys_unique(entries: Seq<(String, CdnHistory)>) -> bool {
    forall|i: int, j: int| 0 <= i < j < entries.len() ==> (#[trigger] entries[i]).0@ != (#[trigger] entries[j]).0@
}

proof fn lemma_map_of_absent(entries: Seq<(String, CdnHistory)>, k: Seq<char>)
    requires
        forall|i: int| 0 <= i < entries.len() ==> (#[trigger] entries[i]).0@ != k,
    ensures
        !map_of(entries).contains_key(k),
    decreases entries.len(),
{
    if entries.len() > 0 {
        lemma_map_of_absent(entries.drop_last(), k);
    }
}

proof fn lemma_map_of_at(entries: Seq<(String, CdnHistory)>, i: int)
    requires
        keys_unique(entries),
        0 <= i < entries.len(),
    ensures
        map_of(entries).contains_key(entries[i].0@),
        map_of(entries)[entries[i].0@] == entries[i].1,
    decreases entries.len(),
{
    if i < entries.len() - 1 {
        lemma_map_of_at(entries.drop_last(), i);
        assert(entries.drop_last()[i] == entries[i]);
        assert(entries[i].0@ != entries[entries.len() - 1].0@);
    }
}

proof fn lemma_map_of_update(entries: Seq<(String, CdnHistory)>, i: int, v: CdnHistory)
    requires
        keys_unique(entries),
        0 <= i < entries.len(),
    ensures
        map_of(entries.update(i, (entries[i].0, v))) == map_of(entries).insert(entries[i].0@, v),
    decreases entries.len(),
{
    let u = entries.update(i, (entries[i].0, v));
    if i == entries.len() - 1 {
        assert(u.drop_last() =~= entries.drop_last());
        lemma_map_of_absent(entries.drop_last(), entries[i].0@);
        assert(map_of(entries).insert(entries[i].0@, v) =~= map_of(entries.drop_last()).insert(entries[i].0@, v));
    } else {
        assert(u.drop_last() =~= entries.drop_last().update(i, (entries[i].0, v)));
        assert(keys_unique(entries.drop_last()));
        lemma_map_of_update(entries.drop_last(), i, v);
        assert(entries[i].0@ != entries.last().0@);
        assert(map_of(u) =~= map_of(entries).insert(entries[i].0@, v));
    }
}

/// The record kept of `host`, or an empty one.
pub open spec fn record_of(m: Map<Seq<char>, CdnHistory>, host: Seq<char>) -> CdnHistory {
    if m.contains_key(host) {
        m[host]
    } else {
        empty_history()
    }
}

/// What is recorded of each CDN host, by host name.
pub struct CdnLedger {
    entries: Vec<(String, CdnHistory)>,
}

impl View for CdnLedger {
    type V = Map<Seq<char>, CdnHistory>;

    closed spec fn view(&self) -> Map<Seq<char>, CdnHistory> {
        map_of(self.entries@)
    }
}

impl CdnLedger {
    #[verifier::type_invariant]
    closed spec fn inv(self) -> bool {
        keys_unique(self.entries@)
    }

    /// A ledger with no hosts.
    pub fn new() -> (res: CdnLedger)
        ensures
            res@ == Map::<Seq<char>, CdnHistory>::empty(),
    {
        CdnLedger { entries: Vec::new() }
    }

    fn position(&self, host: &str) -> (res: Option<usize>)
        ensures
            match res {
                Some(i) => i < self.entries@.len() && self.entries@[i as int].0@ == host@,
                None => forall|i: int| 0 <= i < self.entries@.len() ==> (#[trigger] self.entries@[i]).0@ != host@,
            },
    {
        let mut i: usize = 0;
        while i < self.entries.len()
            invariant
                i <= self.entries@.len(),
                forall|j: int| 0 <= j < i ==> (#[trigger] self.entries@[j]).0@ != host@,
            decreases self.entries.len() - i,
        {
            if text::str_eq(self.entries[i].0.as_str(), host) {
                return Some(i);
            }
            i = i + 1;
        }
        None
    }

    /// The record of `host`, or an empty one.
    pub fn get(&self, host: &str) -> (res: CdnHistory)
        ensures
            res == record_of(self@, host@),
    {
        proof { use_type_invariant(self); }
        match self.position(host) {
            Some(i) => {
                proof { lemma_map_of_at(self.entries@, i as int); }
                self.entries[i].1
            },
            None => {
                proof { lemma_map_of_absent(self.entries@, host@); }
                CdnHistory::empty()
            },
        }
    }

    /// Records `value` for `host`.
    pub fn set(&mut self, host: &str, value: CdnHistory)
        ensures
            final(self)@ == old(self)@.insert(host@, value),
    {
        proof { use_type_invariant(&*self); }
        match self.position(host) {
            Some(i) => {
                let ghost old_entries = self.entries@;
                let key = self.entries[i].0.clone();
                proof { lemma_map_of_update(old_entries, i as int, value); }
                let mut entries: Vec<(String, CdnHistory)> = Vec::new();
                std::mem::swap(&mut entries, &mut self.entries);
                entries.set(i, (key, value));
                assert(entries@ == old_entries.update(i as int, (old_entries[i as int].0, value)));
                assert(keys_unique(entries@)) by {
                    assert forall|a: int, b: int| 0 <= a < b < entries@.len() implies (#[trigger] entries@[a]).0@ != (#[trigger] entries@[b]).0@ by {
                        assert(old_entries[a].0@ != old_entries[b].0@);
                    }
                }
                self.entries = entries;
            },
            None => {
                let ghost old_entries = self.entries@;
                let mut entries: Vec<(String, CdnHistory)> = Vec::new();
                std::mem::swap(&mut entries, &mut self.entries);
                entries.push((text::to_owned_string(host), value));
                assert(entries@.drop_last() =~= old_entries);
                assert(keys_unique(entries@)) by {
                    assert forall|a: int, b: int| 0 <= a < b < entries@.len() implies (#[trigger] entries@[a]).0@ != (#[trigger] entries@[b]).0@ by {
                        if b == entries@.len() - 1 {
                            assert(old_entries[a].0@ != host@);
                        } else {
                            assert(old_entries[a].0@ != old_entries[b].0@);
                        }
                    }
                }
                self.entries = entries;
            },
        }
    }

    /// The hosts and their records, each host once.
    pub fn entries(&self) -> (res: &Vec<(String, CdnHistory)>)
        ensures
            map_of(res@) == self@,
            keys_unique(res@),
    {
        proof { use_type_invariant(self); }
        &self.entries
    }
}

/// One more playback attempt on a host, and one more corruption when the
/// playback was corrupted; counters stop at their maximum.
pub open spec fn with_outcome(h: CdnHistory, corrupted: bool) -> CdnHistory {
    CdnHistory {
        attempts: if h.attempts == u64::MAX { u64::MAX } else { (h.attempts + 1) as u64 },
        corruptions: if !corrupted {
            h.corruptions
        } else if h.corruptions == u64::MAX {
            u64::MAX
        } else {
            (h.corruptions + 1) as u64
        },
        ..h
    }
}

/// Records the outcome of a playback on `host`.
pub fn record_cdn_result(ledger: &mut CdnLedger, host: &str, corrupted: bool)
    ensures
        final(ledger)@ == old(ledger)@.insert(host@, with_outcome(record_of(old(ledger)@, host@), corrupted)),
{
    let mut entry = ledger.get(host);
    entry.attempts = entry.attempts.saturating_add(1);
    if corrupted {
        entry.corruptions = entry.corruptions.saturating_add(1);
    }
    ledger.set(host, entry);
}

/// How long, in seconds, a probe's measurement is reused.
pub const SCORE_TTL_SECS: i64 = 900;

/// A probe's measurement of a host is still used `now`: taken at most
/// `SCORE_TTL_SECS` ago, not in the future, and from at least one sample.
pub open spec fn probe_is_recent_spec(h: CdnHistory, now: i64) -> bool {
    0 <= now - h.last_probed_at < SCORE_TTL_SECS && h.probe_samples > 0
}

/// Whether the host's last probe can stand in for a new one `now`.
pub fn probe_is_recent(history: &CdnHistory, now: i64) -> (res: bool)
    requires
        i64::MIN <= now - history.last_probed_at <= i64::MAX,
    ensures
        res == probe_is_recent_spec(*history, now),
{
    let age = now - history.last_probed_at;
    age >= 0 && age < SCORE_TTL_SECS && history.probe_samples > 0
}

/// A successful probe `now` with the measurements averaged in: one more
/// sample (stopping at the maximum), the new latency and throughput, and
/// the probe marked as succeeded.
pub fn record_probe_sample(history: &mut CdnHistory, latency_ms: F64Bits, throughput_bps: F64Bits, now: i64)
    ensures
        *final(history) == (CdnHistory {
            probe_samples: sat_add(old(history).probe_samples, 1),
            latency_ms,
            throughput_bps,
            last_probe_ok: true,
            last_probed_at: now,
            ..*old(history)
        }),
{
    history.latency_ms = latency_ms;
    history.throughput_bps = throughput_bps;
    history.probe_samples = history.probe_samples.saturating_add(1);
    history.last_probe_ok = true;
    history.last_probed_at = now;
}

/// A failed probe `now`: one more failure (stopping at the maximum), and
/// the probe marked as failed.
pub fn record_probe_failure(history: &mut CdnHistory, now: i64)
    ensures
        *final(history) == (CdnHistory {
            probe_failures: sat_add(old(history).probe_failures, 1),
            last_probe_ok: false,
            last_probed_at: now,
            ..*old(history)
        }),
{
    history.probe_failures = history.probe_failures.saturating_add(1);
    history.last_probe_ok = false;
    history.last_probed_at = now;
}

/// Which stream a ranking was made for.
#[derive(Debug, Clone, Copy, PartialEq, Eq, Structural)]
pub enum StreamKind {
    Video,
    Audio,
}

/// A ranking recorded in a host's history: the score, speed ratio and
/// bandwidth of the kind of stream ranked, and the probe marked as
/// succeeded where the host has probe samples.
pub fn record_rank(history: &mut CdnHistory, kind: StreamKind, score: F64Bits, speed_ratio: F64Bits, bandwidth: i64)
    ensures
        final(history).last_probe_ok == (old(history).last_probe_ok || old(history).probe_samples > 0),
        kind == StreamKind::Video ==> *final(history) == (CdnHistory {
            video_score: Some(score),
            video_speed_ratio: Some(speed_ratio),
            video_bandwidth: Some(bandwidth),
            last_probe_ok: final(history).last_probe_ok,
            ..*old(history)
        }),
        kind == StreamKind::Audio ==> *final(history) == (CdnHistory {
            audio_score: Some(score),
            audio_speed_ratio: Some(speed_ratio),
            audio_bandwidth: Some(bandwidth),
            last_probe_ok: final(history).last_probe_ok,
            ..*old(history)
        }),
{
    if history.probe_samples > 0 {
        history.last_probe_ok = true;
    }
    match kind {
        StreamKind::Video => {
            history.video_score = Some(score);
            history.video_speed_ratio = Some(speed_ratio);
            history.video_bandwidth = Some(bandwidth);
        },
        StreamKind::Audio => {
            history.audio_score = Some(score);
            history.audio_speed_ratio = Some(speed_ratio);
            history.audio_bandwidth = Some(bandwidth);
        },
    }
}

pub open spec fn sat_add(a: u64, b: u64) -> u64 {
    if a + b > u64::MAX { u64::MAX } else { (a + b) as u64 }
}

pub open spec fn sat_sub(a: u64, b: u64) -> u64 {
    if a >= b { (a - b) as u64 } else { 0 }
}

/// The record on disk after adding what this process recorded of a host:
/// `target` is on disk, `base` what the process last wrote, `value` what it
/// holds now. Counters grow by what the process added since `base`; probe
/// and catalog results are taken when at least as recent as those on disk.
pub open spec fn merged_record(target: CdnHistory, base: CdnHistory, value: CdnHistory) -> CdnHistory {
    let counted = CdnHistory {
        attempts: sat_add(target.attempts, sat_sub(value.attempts, base.attempts)),
        corruptions: sat_add(target.corruptions, sat_sub(value.corruptions, base.corruptions)),
        probe_samples: sat_add(target.probe_samples, sat_sub(value.probe_samples, base.probe_samples)),
        probe_failures: sat_add(target.probe_failures, sat_sub(value.probe_failures, base.probe_failures)),
        ..target
    };
    let probed = if value.last_probed_at >= target.last_probed_at {
        CdnHistory {
            last_probe_ok: value.last_probe_ok,
            latency_ms: value.latency_ms,
            throughput_bps: value.throughput_bps,
            last_probed_at: value.last_probed_at,
            video_score: value.video_score,
            video_speed_ratio: value.video_speed_ratio,
            video_bandwidth: value.video_bandwidth,
            audio_score: value.audio_score,
            audio_speed_ratio: value.audio_speed_ratio,
            audio_bandwidth: value.audio_bandwidth,
            ..counted
        }
    } else {
        counted
    };
    if value.catalog_probed_at >= target.catalog_probed_at {
        CdnHistory {
            catalog_reachable: value.catalog_reachable,
            catalog_latency_ms: value.catalog_latency_ms,
            catalog_probed_at: value.catalog_probed_at,
            ..probed
        }
    } else {
        probed
    }
}

/// The ledger on disk after merging every host of `values`.
pub open spec fn merged_ledger(
    disk: Map<Seq<char>, CdnHistory>,
    base: Map<Seq<char>, CdnHistory>,
    values: Map<Seq<char>, CdnHistory>,
) -> Map<Seq<char>, CdnHistory> {
    Map::new(
        |h: Seq<char>| disk.contains_key(h) || values.contains_key(h),
        |h: Seq<char>| if values.contains_key(h) {
            merged_record(record_of(disk, h), record_of(base, h), values[h])
        } else {
            disk[h]
        },
    )
}

fn merge_record(target: CdnHistory, base: CdnHistory, value: CdnHistory) -> (res: CdnHistory)
    ensures
        res == merged_record(target, base, value),
{
    let mut t = target;
    t.attempts = t.attempts.saturating_add(if value.attempts >= base.attempts { value.attempts - base.attempts } else { 0 });
    t.corruptions = t.corruptions.saturating_add(if value.corruptions >= base.corruptions { value.corruptions - base.corruptions } else { 0 });
    t.probe_samples = t.probe_samples.saturating_add(if value.probe_samples >= base.probe_samples { value.probe_samples - base.probe_samples } else { 0 });
    t.probe_failures = t.probe_failures.saturating_add(if value.probe_failures >= base.probe_failures { value.probe_failures - base.probe_failures } else { 0 });
    if value.last_probed_at >= t.last_probed_at {
        t.last_probe_ok = value.last_probe_ok;
        t.latency_ms = value.latency_ms;
        t.throughput_bps = value.throughput_bps;
        t.last_probed_at = value.last_probed_at;
        t.video_score = value.video_score;
        t.video_speed_ratio = value.video_speed_ratio;
        t.video_bandwidth = value.video_bandwidth;
        t.audio_score = value.audio_score;
        t.audio_speed_ratio = value.audio_speed_ratio;
        t.audio_bandwidth = value.audio_bandwidth;
    }
    if value.catalog_probed_at >= t.catalog_probed_at {
        t.catalog_reachable = value.catalog_reachable;
        t.catalog_latency_ms = value.catalog_latency_ms;
        t.catalog_probed_at = value.catalog_probed_at;
    }
    t
}

/// Merges what this process holds (`values`) into the ledger read from disk
/// (`disk`), given what the process last wrote (`base`), host by host.
pub fn merge_history(base: &CdnLedger, values: &CdnLedger, disk: &mut CdnLedger)
    ensures
        final(disk)@ == merged_ledger(old(disk)@, base@, values@),
{
    let entries = values.entries();
    let ghost start = disk@;
    let mut i: usize = 0;
    assert(merged_ledger(start, base@, map_of(entries@.take(0))) =~= start);
    while i < entries.len()
        invariant
            i <= entries@.len(),
            keys_unique(entries@),
            map_of(entries@) == values@,
            disk@ == merged_ledger(start, base@, map_of(entries@.take(i as int))),
        decreases entries.len() - i,
    {
        let host = entries[i].0.as_str();
        let value = entries[i].1;
        let ghost done = map_of(entries@.take(i as int));
        proof {
            assert forall|j: int| 0 <= j < entries@.take(i as int).len() implies (#[trigger] entries@.take(i as int)[j]).0@ != host@ by {
                assert(entries@[j].0@ != entries@[i as int].0@);
            }
            lemma_map_of_absent(entries@.take(i as int), host@);
            assert(entries@.take(i + 1).drop_last() =~= entries@.take(i as int));
        }
        let target = disk.get(host);
        assert(target == record_of(start, host@));
        let merged = merge_record(target, base.get(host), value);
        disk.set(host, merged);
        proof {
            let next = map_of(entries@.take(i + 1));
            assert(next == done.insert(host@, value));
            assert(disk@ =~= merged_ledger(start, base@, next));
        }
        i = i + 1;
    }
    assert(entries@.take(entries.len() as int) =~= entries@);
}

/// A counter on disk (`t`) after adding what a process counted (`v`) since
/// it last wrote `b`: nothing when its count went down, and at most
/// `u64::MAX`.
pub open spec fn counted_since(t: u64, b: u64, v: u64) -> int {
    if v < b {
        t as int
    } else if t + (v - b) <= u64::MAX {
        t + (v - b)
    } else {
        u64::MAX as int
    }
}

/// The video stream chosen under a cap is within the cap, of the highest
/// quality id there, and of the highest bandwidth among streams of that id;
/// no later stream within the cap shares both.
pub proof fn lemma_best_video(v: Seq<DashStream>, max_qn: i64, i: int)
    requires
        is_best_video(v, max_qn, i),
    ensures
        v[i].id <= max_qn,
        forall|j: int| 0 <= j < v.len() && (#[trigger] v[j]).id <= max_qn ==> v[j].id < v[i].id
            || (v[j].id == v[i].id && v[j].bandwidth <= v[i].bandwidth),
        forall|j: int| i < j < v.len() && (#[trigger] v[j]).id <= max_qn ==> v[j].id < v[i].id
            || (v[j].id == v[i].id && v[j].bandwidth < v[i].bandwidth),
{
    assert forall|j: int| 0 <= j < v.len() && (#[trigger] v[j]).id <= max_qn implies v[j].id < v[i].id
        || (v[j].id == v[i].id && v[j].bandwidth <= v[i].bandwidth) by {
        assert(!key_lt(v[i].id, v[i].bandwidth, v[j].id, v[j].bandwidth));
    }
}

/// A playback on a host counts one more attempt there, and one more
/// corruption when it was corrupted (both stopping at the maximum); nothing
/// else of that host changes, and no other host changes.
pub proof fn lemma_record_outcome(m: Map<Seq<char>, CdnHistory>, host: Seq<char>, corrupted: bool, other: Seq<char>)
    ensures
        ({
            let next = m.insert(host, with_outcome(record_of(m, host), corrupted));
            let before = record_of(m, host);
            let after = record_of(next, host);
            &&& after.attempts == if before.attempts < u64::MAX { before.attempts + 1 } else { u64::MAX as int }
            &&& after.corruptions == if !corrupted {
                before.corruptions as int
            } else if before.corruptions < u64::MAX {
                before.corruptions + 1
            } else {
                u64::MAX as int
            }
            &&& after == CdnHistory { attempts: after.attempts, corruptions: after.corruptions, ..before }
            &&& other != host ==> record_of(next, other) == record_of(m, other)
        }),
{
}

/// A probe is reused for fifteen minutes: from when it was taken, for less
/// than 900 seconds, and only when it has a sample.
pub proof fn lemma_probe_recent(h: CdnHistory, now: i64)
    ensures
        probe_is_recent_spec(h, now) <==> (h.last_probed_at <= now < h.last_probed_at + 900 && h.probe_samples >= 1),
{
}

/// Merging with a ledger that another process wrote meanwhile: for every
/// host this process holds, the probe results on disk afterwards are this
/// process's when its probe is at least as recent as the one on disk, and
/// stay the disk's otherwise, so a newer probe is never replaced by an older
/// one; the catalog result likewise by its own time; and each counter is the
/// disk's plus what this process added since its last write (saturating).
/// Hosts this process does not hold keep their records.
pub proof fn lemma_merge_keeps_newer(disk: Map<Seq<char>, CdnHistory>, base: Map<Seq<char>, CdnHistory>,
    values: Map<Seq<char>, CdnHistory>, h: Seq<char>)
    requires
        values.contains_key(h),
    ensures
        ({
            let r = merged_ledger(disk, base, values)[h];
            let t = record_of(disk, h);
            let b = record_of(base, h);
            let v = values[h];
            &&& merged_ledger(disk, base, values).contains_key(h)
            &&& v.last_probed_at >= t.last_probed_at ==> {
                &&& r.last_probed_at == v.last_probed_at && r.last_probe_ok == v.last_probe_ok
                &&& r.latency_ms == v.latency_ms && r.throughput_bps == v.throughput_bps
                &&& r.video_score == v.video_score && r.video_speed_ratio == v.video_speed_ratio
                &&& r.video_bandwidth == v.video_bandwidth && r.audio_score == v.audio_score
                &&& r.audio_speed_ratio == v.audio_speed_ratio && r.audio_bandwidth == v.audio_bandwidth
            }
            &&& v.last_probed_at < t.last_probed_at ==> {
                &&& r.last_probed_at == t.last_probed_at && r.last_probe_ok == t.last_probe_ok
                &&& r.latency_ms == t.latency_ms && r.throughput_bps == t.throughput_bps
                &&& r.video_score == t.video_score && r.video_speed_ratio == t.video_speed_ratio
                &&& r.video_bandwidth == t.video_bandwidth && r.audio_score == t.audio_score
                &&& r.audio_speed_ratio == t.audio_speed_ratio && r.audio_bandwidth == t.audio_bandwidth
            }
            &&& r.last_probed_at == if v.last_probed_at >= t.last_probed_at { v.last_probed_at } else { t.last_probed_at }
            &&& v.catalog_probed_at >= t.catalog_probed_at ==> r.catalog_probed_at == v.catalog_probed_at
                && r.catalog_reachable == v.catalog_reachable && r.catalog_latency_ms == v.catalog_latency_ms
            &&& v.catalog_probed_at < t.catalog_probed_at ==> r.catalog_probed_at == t.catalog_probed_at
                && r.catalog_reachable == t.catalog_reachable && r.catalog_latency_ms == t.catalog_latency_ms
            &&& r.attempts == counted_since(t.attempts, b.attempts, v.attempts)
            &&& r.corruptions == counted_since(t.corruptions, b.corruptions, v.corruptions)
            &&& r.probe_samples == counted_since(t.probe_samples, b.probe_samples, v.probe_samples)
            &&& r.probe_failures == counted_since(t.probe_failures, b.probe_failures, v.probe_failures)
        }),
        forall|k: Seq<char>| disk.contains_key(k) && !values.contains_key(k)
            ==> #[trigger] merged_ledger(disk, base, values)[k] == disk[k],
{
}

/// With no other writer since the last write (the disk holds `base`), and
/// a process whose counters and timestamps have only grown since `base`,
/// merging leaves on disk exactly what the process holds, for every host it
/// holds; hosts it does not hold keep their records.
pub proof fn lemma_merge_sole_writer(base: Map<Seq<char>, CdnHistory>, values: Map<Seq<char>, CdnHistory>)
    requires
        forall|h: Seq<char>| #[trigger] values.contains_key(h) ==> {
            let b = record_of(base, h);
            let v = values[h];
            &&& v.attempts >= b.attempts
            &&& v.corruptions >= b.corruptions
            &&& v.probe_samples >= b.probe_samples
            &&& v.probe_failures >= b.probe_failures
            &&& v.last_probed_at >= b.last_probed_at
            &&& v.catalog_probed_at >= b.catalog_probed_at
        },
    ensures
        forall|h: Seq<char>| #[trigger] values.contains_key(h) ==> merged_ledger(base, base, values)[h] == values[h],
        forall|h: Seq<char>| base.contains_key(h) && !values.contains_key(h)
            ==> #[trigger] merged_ledger(base, base, values)[h] == base[h],
        merged_ledger(base, base, values).dom() == base.dom() + values.dom(),
{
    assert(merged_ledger(base, base, values).dom() =~= base.dom() + values.dom());
}

} // verus!
