//! Playback decisions: the order of a playlist, which playlist items failed,
//! when a live stream is reloaded and how long to wait, mpv script names,
//! and the HTTP range headers of the local media proxy.

use vstd::prelude::*;
use crate::text;
use crate::api::video::VideoInfo;
use crate::json::{self, JsonValue};

verus! {

// ---------------------------------------------------------------------------
// Playlists
// ---------------------------------------------------------------------------

/// An item of a playlist.
#[derive(Debug, Clone)]
pub struct PlaylistItem {
    pub bvid: String,
    pub aid: i64,
    pub cid: Option<i64>,
    pub title: String,
    pub uploader_mid: Option<i64>,
    pub duration: Option<i64>,
    pub page: Option<i32>,
}

impl PlaylistItem {
    /// The cid and duration the item plays with, where it carries both;
    /// `None` where the video's info must be fetched first.
    pub fn known_cid_duration(&self) -> (res: Option<(i64, i64)>)
        ensures
            res == (match (self.cid, self.duration) {
                (Some(c), Some(d)) => Some((c, d)),
                _ => None::<(i64, i64)>,
            }),
    {
        match (self.cid, self.duration) {
            (Some(c), Some(d)) => Some((c, d)),
            _ => None,
        }
    }

    /// The cid and duration the item plays with once the video's info is
    /// known: the item's own where it has them, else the info's; a duration
    /// known to neither is 0.
    pub fn completed_cid_duration(&self, info: &VideoInfo) -> (res: (i64, i64))
        ensures
            res.0 == (match self.cid {
                Some(c) => c,
                None => info.cid,
            }),
            res.1 == (match self.duration {
                Some(d) => d,
                None => match info.duration {
                    Some(d) => d,
                    None => 0,
                },
            }),
    {
        let cid = match self.cid {
            Some(c) => c,
            None => info.cid,
        };
        let duration = match self.duration {
            Some(d) => d,
            None => match info.duration {
                Some(d) => d,
                None => 0,
            },
        };
        (cid, duration)
    }
}

/// The order in which a playlist plays.
#[derive(Debug, Clone, Copy, PartialEq, Eq, Structural)]
pub enum PlayOrder {
    Forward,
    Reverse,
    Shuffle,
}

/// `<[T]>::swap`: exchanges two elements.
#[verifier::external_body]
fn swap_items<T>(v: &mut Vec<T>, i: usize, j: usize)
    requires
        i < old(v)@.len(),
        j < old(v)@.len(),
    ensures
        final(v)@ == old(v)@.update(i as int, old(v)@[j as int]).update(j as int, old(v)@[i as int]),
{
    v.swap(i, j)
}

/// Reverses `v` in place.
fn reverse_items<T>(v: &mut Vec<T>)
    ensures
        final(v)@ == old(v)@.reverse(),
{
    let n = v.len();
    let mut i: usize = 0;
    while i < n / 2
        invariant
            n == v@.len(),
            n == old(v)@.len(),
            i <= n / 2,
            forall|k: int| 0 <= k < i ==> #[trigger] v@[k] == old(v)@[n - 1 - k] && v@[n - 1 - k] == old(v)@[k],
            forall|k: int| i <= k < n - i ==> #[trigger] v@[k] == old(v)@[k],
        decreases n / 2 - i,
    {
        let ghost prev = v@;
        swap_items(v, i, n - 1 - i);
        proof {
            assert forall|k: int| 0 <= k < i + 1 implies #[trigger] v@[k] == old(v)@[n - 1 - k]
                && v@[n - 1 - k] == old(v)@[k] by {
                if k < i {
                    assert(v@[k] == prev[k] && v@[n - 1 - k] == prev[n - 1 - k]);
                } else {
                    assert(prev[k] == old(v)@[k] && prev[n - 1 - k] == old(v)@[n - 1 - k]);
                }
            }
            assert forall|k: int| i + 1 <= k < n - (i + 1) implies #[trigger] v@[k] == old(v)@[k] by {
                assert(v@[k] == prev[k]);
            }
        }
        i = i + 1;
    }
    assert forall|k: int| 0 <= k < n implies #[trigger] v@[k] == old(v)@.reverse()[k] by {
        if k < i {
        } else if k >= n - i {
            let k2 = n - 1 - k;
            assert(0 <= k2 < i);
            assert(v@[k2] == old(v)@[n - 1 - k2]);
        } else {
            assert(k == n - 1 - k);
        }
    }
    assert(v@ =~= old(v)@.reverse());
}

/// One xorshift step of the shuffle.
pub open spec fn xorshift(state: u64) -> u64 {
    let a = state ^ (state << 13u64);
    let b = a ^ (a >> 7u64);
    b ^ (b << 17u64)
}

/// The shuffle's swaps for positions `index` down to 2, starting from
/// `state`: each position `index` swaps with `1 + state % index` after a
/// xorshift step, so the first item stays in place.
pub open spec fn shuffle_from<T>(items: Seq<T>, state: u64, index: int) -> Seq<T>
    decreases index,
{
    if index < 2 || index >= items.len() {
        items
    } else {
        let s = xorshift(state);
        let j = 1 + (s as usize) as int % index;
        shuffle_from(items.update(index, items[j]).update(j, items[index]), s, index - 1)
    }
}

/// The order in which a playlist plays and the index it starts at. Reverse
/// order reverses the items and moves the start along; shuffle moves the
/// start item to the front and shuffles the rest with xorshift seeded by
/// `seed`.
pub open spec fn ordered_spec<T>(items: Seq<T>, order: PlayOrder, start: int, seed: u64) -> (Seq<T>, int) {
    match order {
        PlayOrder::Forward => (items, start),
        PlayOrder::Reverse => (items.reverse(), items.len() - 1 - start),
        PlayOrder::Shuffle => {
            let swapped = items.update(0, items[start]).update(start, items[0]);
            (shuffle_from(swapped, seed ^ (items.len() as u64), items.len() - 1), 0)
        },
    }
}

/// Why a playlist cannot start.
#[derive(Debug, Clone, Copy, PartialEq, Eq, Structural)]
pub enum PlaylistError {
    /// The playlist is empty.
    Empty,
    /// The start index is past the end.
    StartOutOfRange,
}

/// Orders a playlist with the shuffle seeded by `seed`.
pub fn ordered_playlist_with_seed(items: Vec<PlaylistItem>, order: PlayOrder, start_index: usize, seed: u64)
    -> (res: Result<(Vec<PlaylistItem>, usize), PlaylistError>)
    ensures
        match res {
            Ok((v, s)) => items@.len() > 0 && start_index < items@.len()
                && ordered_spec(items@, order, start_index as int, seed) == (v@, s as int),
            Err(PlaylistError::Empty) => items@.len() == 0,
            Err(PlaylistError::StartOutOfRange) => items@.len() > 0 && start_index >= items@.len(),
        },
{
    if items.len() == 0 {
        return Err(PlaylistError::Empty);
    }
    if start_index >= items.len() {
        return Err(PlaylistError::StartOutOfRange);
    }
    let mut items = items;
    match order {
        PlayOrder::Forward => Ok((items, start_index)),
        PlayOrder::Reverse => {
            let start = items.len() - 1 - start_index;
            reverse_items(&mut items);
            Ok((items, start))
        },
        PlayOrder::Shuffle => {
            swap_items(&mut items, 0, start_index);
            let ghost swapped = items@;
            let n = items.len();
            let mut state: u64 = seed ^ (n as u64);
            let mut index: usize = n - 1;
            assert(shuffle_from(swapped, state, (n - 1) as int) == shuffle_from(items@, state, index as int));
            while index >= 2
                invariant
                    n == items@.len(),
                    index < n,
                    shuffle_from(swapped, seed ^ (n as u64), (n - 1) as int) == shuffle_from(items@, state, index as int),
                decreases index,
            {
                state = state ^ (state << 13u64);
                state = state ^ (state >> 7u64);
                state = state ^ (state << 17u64);
                let j: usize = 1 + (state as usize) % index;
                swap_items(&mut items, index, j);
                index = index - 1;
            }
            Ok((items, 0))
        },
    }
}

/// The current time in nanoseconds since the Unix epoch, by
/// `chrono::Utc::now().timestamp_nanos_opt()` (0 when out of range), as
/// `u64`. Nothing is claimed of the value.
#[verifier::external_body]
fn clock_nanos() -> (res: u64) {
    chrono::Utc::now().timestamp_nanos_opt().unwrap_or_default() as u64
}

/// Orders a playlist; the shuffle is seeded by the clock.
pub fn ordered_playlist(items: Vec<PlaylistItem>, order: PlayOrder, start_index: usize)
    -> (res: Result<(Vec<PlaylistItem>, usize), PlaylistError>)
    ensures
        match res {
            Ok((v, s)) => items@.len() > 0 && start_index < items@.len()
                && exists|seed: u64| ordered_spec(items@, order, start_index as int, seed) == (v@, s as int),
            Err(PlaylistError::Empty) => items@.len() == 0,
            Err(PlaylistError::StartOutOfRange) => items@.len() > 0 && start_index >= items@.len(),
        },
{
    let seed = clock_nanos();
    ordered_playlist_with_seed(items, order, start_index, seed)
}

proof fn lemma_update_multiset<T>(s: Seq<T>, i: int, a: T)
    requires
        0 <= i < s.len(),
    ensures
        s.update(i, a).to_multiset() == s.to_multiset().remove(s[i]).insert(a),
{
    vstd::seq_lib::to_multiset_remove(s, i);
    vstd::seq_lib::to_multiset_insert(s.remove(i), i, a);
    assert(s.remove(i).insert(i, a) =~= s.update(i, a));
}

proof fn lemma_swap_multiset<T>(s: Seq<T>, i: int, j: int)
    requires
        0 <= i < s.len(),
        0 <= j < s.len(),
    ensures
        s.update(i, s[j]).update(j, s[i]).to_multiset() == s.to_multiset(),
{
    broadcast use vstd::multiset::group_multiset_axioms;
    broadcast use vstd::seq_lib::group_seq_properties;
    let u = s.update(i, s[j]);
    lemma_update_multiset(s, i, s[j]);
    lemma_update_multiset(u, j, s[i]);
    let m = s.to_multiset();
    if i == j {
        assert(u =~= s);
        assert(u.update(j, s[i]) =~= s);
    } else {
        assert(u[j] == s[j]);
        assert(m.count(s[i]) > 0) by {
            vstd::seq_lib::to_multiset_remove(s, i);
            assert(s.to_multiset().count(s[i]) > 0) by {
                s.to_multiset_ensures();
            }
        }
        assert(m.remove(s[i]).insert(s[j]).remove(s[j]).insert(s[i]) =~= m);
    }
}

proof fn lemma_shuffle_keeps<T>(items: Seq<T>, state: u64, index: int)
    ensures
        shuffle_from(items, state, index).len() == items.len(),
        shuffle_from(items, state, index).to_multiset() == items.to_multiset(),
        items.len() > 0 ==> shuffle_from(items, state, index)[0] == items[0],
    decreases index,
{
    if !(index < 2 || index >= items.len()) {
        let s = xorshift(state);
        let j = 1 + (s as usize) as int % index;
        let next = items.update(index, items[j]).update(j, items[index]);
        lemma_swap_multiset(items, index, j);
        lemma_shuffle_keeps(next, s, index - 1);
    }
}

/// Whatever the order, the playlist keeps its items (as a multiset) and
/// starts with the item chosen to start.
pub proof fn lemma_ordered_starts_at_chosen<T>(items: Seq<T>, order: PlayOrder, start: int, seed: u64)
    requires
        0 <= start < items.len(),
    ensures
        ({
            let (v, s) = ordered_spec(items, order, start, seed);
            &&& v.len() == items.len()
            &&& v.to_multiset() == items.to_multiset()
            &&& 0 <= s < v.len()
            &&& v[s] == items[start]
        }),
{
    match order {
        PlayOrder::Forward => {},
        PlayOrder::Reverse => {
            items.lemma_reverse_to_multiset();
        },
        PlayOrder::Shuffle => {
            let swapped = items.update(0, items[start]).update(start, items[0]);
            lemma_swap_multiset(items, 0, start);
            lemma_shuffle_keeps(swapped, seed ^ (items.len() as u64), items.len() - 1);
            if start == 0 {
                assert(swapped[0] == items[0]);
            }
        },
    }
}

// ---------------------------------------------------------------------------
// Failures, reloads and retries
// ---------------------------------------------------------------------------

/// The prepared value of a playlist item, or `None` after recording
/// `"{bvid}: {error}"` among the failures.
pub fn accept_prepared_result<T>(item: &PlaylistItem, result: Result<T, String>, failures: &mut Vec<String>) -> (res: Option<T>)
    ensures
        match result {
            Ok(v) => res == Some(v) && final(failures)@ == old(failures)@,
            Err(e) => res is None && final(failures)@.len() == old(failures)@.len() + 1
                && final(failures)@.drop_last() == old(failures)@
                && final(failures)@.last()@ == item.bvid@ + ": "@ + e@,
        },
{
    match result {
        Ok(prepared) => Some(prepared),
        Err(error) => {
            let mut line = text::to_owned_string(item.bvid.as_str());
            text::push_str(&mut line, ": ");
            text::push_str(&mut line, error.as_str());
            failures.push(line);
            assert(failures@.drop_last() =~= old(failures)@);
            None
        },
    }
}

/// The diagnostic line for skipped playlist items, when any were skipped.
pub fn skipped_items_message(failures: &Vec<String>) -> (res: Option<String>)
    ensures
        match res {
            Some(m) => failures@.len() > 0 && m@ == "playlist skipped items: "@
                + text::joined(failures@.map_values(|f: String| f@), "; "@),
            None => failures@.len() == 0,
        },
{
    if failures.len() == 0 {
        return None;
    }
    let mut msg = text::to_owned_string("playlist skipped items: ");
    let ghost head = msg@;
    let ghost parts = failures@.map_values(|f: String| f@);
    let mut i: usize = 0;
    while i < failures.len()
        invariant
            i <= failures.len(),
            parts == failures@.map_values(|f: String| f@),
            msg@ == head + text::joined(parts.take(i as int), "; "@),
        decreases failures.len() - i,
    {
        assert(parts.take(i + 1).drop_last() =~= parts.take(i as int));
        if i > 0 {
            text::push_str(&mut msg, "; ");
        }
        text::push_str(&mut msg, failures[i].as_str());
        proof {
            if i == 0 {
                assert(parts.take(1) =~= seq![parts[0]]);
            }
        }
        i = i + 1;
    }
    assert(parts.take(failures.len() as int) =~= parts);
    Some(msg)
}

/// An mpv log line that reports corrupt H.264 video.
pub open spec fn is_corrupt_video_log_spec(line: Seq<char>) -> bool {
    text::seq_contains(line, "Invalid NAL unit size"@)
        || text::seq_contains(line, "Error splitting the input into NAL units"@)
        || text::seq_contains(line, "Error while decoding frame"@)
}

pub fn is_corrupt_video_log(line: &str) -> (res: bool)
    ensures
        res == is_corrupt_video_log_spec(line@),
{
    let chars = text::chars_of(line);
    let a = text::chars_of("Invalid NAL unit size");
    let b = text::chars_of("Error splitting the input into NAL units");
    let c = text::chars_of("Error while decoding frame");
    text::contains(&chars, &a) || text::contains(&chars, &b) || text::contains(&chars, &c)
}

/// The end-of-file reasons after which a live stream is reloaded: stream
/// failures, not a stop or quit.
pub fn should_reload_live_reason(reason: &str) -> (res: bool)
    ensures
        res == (reason@ == "eof"@ || reason@ == "error"@ || reason@ == "redirect"@),
{
    text::str_eq(reason, "eof") || text::str_eq(reason, "error") || text::str_eq(reason, "redirect")
}

/// The wait before live retry `attempt`, in milliseconds: 250 ms doubled per
/// attempt up to the fourth, at most 4 s.
pub open spec fn live_retry_delay_ms(attempt: int) -> u64 {
    let doublings: int = if attempt < 4 { attempt } else { 4 };
    let ms: int = 250 * pow2(doublings);
    if ms < 4000 { ms as u64 } else { 4000 }
}

pub open spec fn pow2(n: int) -> int
    decreases n,
{
    if n <= 0 { 1 } else { 2 * pow2(n - 1) }
}

/// The wait before live retry `attempt`, in milliseconds.
pub fn live_retry_delay(attempt: usize) -> (res: u64)
    ensures
        res == live_retry_delay_ms(attempt as int),
{
    let doublings: u64 = if attempt < 4 { attempt as u64 } else { 4 };
    let factor: u64 = 1u64 << doublings;
    assert(factor == pow2(doublings as int)) by {
        assert(pow2(0) == 1 && pow2(1) == 2 && pow2(2) == 4 && pow2(3) == 8 && pow2(4) == 16) by {
            reveal_with_fuel(pow2, 5);
        }
        assert(1u64 << 0u64 == 1u64 && 1u64 << 1u64 == 2u64 && 1u64 << 2u64 == 4u64 && 1u64 << 3u64 == 8u64
            && 1u64 << 4u64 == 16u64) by (bit_vector);
    }
    assert(factor <= 16u64) by (bit_vector)
        requires
            doublings <= 4u64,
            factor == 1u64 << doublings,
    ;
    let ms = 250u64 * factor;
    if ms < 4000 { ms } else { 4000 }
}

/// Retry waits grow with the attempt and never exceed 4 s; from the fourth
/// attempt on they stay at 4 s.
pub proof fn lemma_live_retry_bounded(a: int, b: int)
    requires
        0 <= a <= b,
    ensures
        live_retry_delay_ms(a) <= live_retry_delay_ms(b),
        live_retry_delay_ms(b) <= 4000,
        b >= 4 ==> live_retry_delay_ms(b) == 4000,
{
    reveal_with_fuel(pow2, 5);
}

/// mpv's name for a script: its file stem (or `live_danmaku`) with every
/// character other than ASCII letters, digits and `_` replaced by `_`.
pub open spec fn mpv_script_name_spec(stem: Option<Seq<char>>) -> Seq<char> {
    let s = match stem {
        Some(s) => s,
        None => "live_danmaku"@,
    };
    s.map_values(|c: char| if text::is_ascii_alphanumeric(c) || c == '_' { c } else { '_' })
}

/// The name mpv gives a script whose file stem is `stem`.
pub fn mpv_script_name(stem: Option<&str>) -> (res: String)
    ensures
        res@ == mpv_script_name_spec(match stem {
            Some(s) => Some(s@),
            None => None,
        }),
{
    let chars = match stem {
        Some(s) => text::chars_of(s),
        None => text::chars_of("live_danmaku"),
    };
    let mut out = String::new();
    let mut i: usize = 0;
    while i < chars.len()
        invariant
            i <= chars.len(),
            out@ == chars@.take(i as int).map_values(|c: char| if text::is_ascii_alphanumeric(c) || c == '_' { c } else { '_' }),
        decreases chars.len() - i,
    {
        let c = chars[i];
        let mapped = if text::char_is_ascii_alphanumeric(c) || c == '_' { c } else { '_' };
        text::push_char(&mut out, mapped);
        i = i + 1;
        assert(out@ =~= chars@.take(i as int).map_values(|c: char| if text::is_ascii_alphanumeric(c) || c == '_' { c } else { '_' }));
    }
    assert(chars@.take(chars.len() as int) =~= chars@);
    out
}

// ---------------------------------------------------------------------------
// Media proxy headers
// ---------------------------------------------------------------------------

/// `Range: bytes=START-[END]`: the start, and the end when present; a
/// range whose start, or whose end where present, is no number does not
/// parse.
pub open spec fn parse_range_spec(value: Seq<char>) -> Option<(usize, Option<usize>)> {
    match text::strip_prefix(value, "bytes="@) {
        Some(rest) => match text::split_once(rest, '-') {
            Some((start, end)) => match text::parse_usize_spec(start) {
                Some(s) => if end.len() == 0 {
                    Some((s, None))
                } else {
                    match text::parse_usize_spec(end) {
                        Some(e) => Some((s, Some(e))),
                        None => None,
                    }
                },
                None => None,
            },
            None => None,
        },
        None => None,
    }
}

pub fn parse_range(value: &str) -> (res: Option<(usize, Option<usize>)>)
    ensures
        res == parse_range_spec(value@),
{
    let chars = text::chars_of(value);
    let prefix = text::chars_of("bytes=");
    let rest = text::strip_prefix_chars(&chars, &prefix)?;
    let (start, end) = text::split_once_char(&rest, '-')?;
    let s = text::parse_usize(&start)?;
    if end.len() == 0 {
        return Some((s, None));
    }
    let e = text::parse_usize(&end)?;
    Some((s, Some(e)))
}

/// `Content-Range: bytes START-END/TOTAL`.
pub open spec fn parse_content_range_spec(value: Seq<char>) -> Option<(u64, u64, u64)> {
    match text::strip_prefix(value, "bytes "@) {
        Some(rest) => match text::split_once(rest, '/') {
            Some((range, total)) => match text::split_once(range, '-') {
                Some((start, end)) => match (text::parse_u64_spec(start), text::parse_u64_spec(end),
                    text::parse_u64_spec(total)) {
                    (Some(s), Some(e), Some(t)) => Some((s, e, t)),
                    _ => None,
                },
                None => None,
            },
            None => None,
        },
        None => None,
    }
}

pub fn parse_content_range(value: &str) -> (res: Option<(u64, u64, u64)>)
    ensures
        res == parse_content_range_spec(value@),
{
    let chars = text::chars_of(value);
    let prefix = text::chars_of("bytes ");
    let rest = text::strip_prefix_chars(&chars, &prefix)?;
    let (range, total) = text::split_once_char(&rest, '/')?;
    let (start, end) = text::split_once_char(&range, '-')?;
    let s = text::parse_u64(&start)?;
    let e = text::parse_u64(&end)?;
    let t = text::parse_u64(&total)?;
    Some((s, e, t))
}

/// The first `generation=N` of a query whose value is a number.
pub open spec fn first_generation(pairs: Seq<Seq<char>>) -> Option<usize>
    decreases pairs.len(),
{
    if pairs.len() == 0 {
        None
    } else {
        let here = match text::split_once(pairs[0], '=') {
            Some((key, value)) => if key == "generation"@ { text::parse_usize_spec(value) } else { None },
            None => None,
        };
        match here {
            Some(g) => Some(g),
            None => first_generation(pairs.drop_first()),
        }
    }
}

/// The `generation` query parameter of a request path.
pub open spec fn generation_spec(path: Seq<char>) -> Option<usize> {
    match text::split_once(path, '?') {
        Some((_, query)) => first_generation(text::split_on(query, '&')),
        None => None,
    }
}

pub fn generation(path: &str) -> (res: Option<usize>)
    ensures
        res == generation_spec(path@),
{
    let chars = text::chars_of(path);
    let (head, query) = text::split_once_char(&chars, '?')?;
    assert(text::split_once(path@, '?') == Some((head@, query@)));
    let pairs = text::split_on_char(&query, '&');
    let ghost all = text::vecs_view(pairs@);
    let key = text::chars_of("generation");
    let mut i: usize = 0;
    assert(all.skip(0) =~= all);
    while i < pairs.len()
        invariant
            i <= pairs.len(),
            all == text::vecs_view(pairs@),
            key@ == "generation"@,
            first_generation(all) == first_generation(all.skip(i as int)),
            generation_spec(path@) == first_generation(all),
        decreases pairs.len() - i,
    {
        assert(all.skip(i as int)[0] == pairs@[i as int]@);
        assert(all.skip(i as int).drop_first() =~= all.skip(i + 1));
        match text::split_once_char(&pairs[i], '=') {
            Some((k, v)) => {
                if text::starts_with(&k, &key) && k.len() == key.len() {
                    assert(k@ =~= key@);
                    match text::parse_usize(&v) {
                        Some(g) => {
                            assert(text::split_once(all.skip(i as int)[0], '=') == Some((k@, v@)));
                            assert(text::parse_usize_spec(v@) == Some(g));
                            return Some(g);
                        },
                        None => {},
                    }
                } else {
                    assert(k@ != "generation"@) by {
                        if k@ == key@ {
                            assert(k@.take(key@.len() as int) =~= k@);
                        }
                    }
                }
            },
            None => {},
        }
        i = i + 1;
    }
    None
}

// ---------------------------------------------------------------------------
// mpv command lines and replies
// ---------------------------------------------------------------------------

/// The buffering options for separate DASH streams: normal buffering, so
/// that on-demand playback is not affected by mpv's low-latency profile.
pub open spec fn vod_buffering_args_spec() -> Seq<Seq<char>> {
    seq!["--audio-buffer=0.2"@, "--vd-lavc-threads=0"@, "--cache=yes"@, "--cache-pause=yes"@,
        "--demuxer-lavf-o="@, "--demuxer-lavf-probe-info=auto"@, "--demuxer-lavf-analyzeduration=0"@,
        "--video-latency-hacks=no"@, "--stream-buffer-size=128KiB"@]
}

fn push_arg(args: &mut Vec<String>, arg: &str)
    ensures
        text::string_views(final(args)@) == text::string_views(old(args)@).push(arg@),
{
    args.push(text::to_owned_string(arg));
    assert(text::string_views(args@) =~= text::string_views(old(args)@).push(arg@));
}

/// The buffering options of on-demand playback.
pub fn vod_buffering_args() -> (res: Vec<String>)
    ensures
        text::string_views(res@) == vod_buffering_args_spec(),
{
    let mut args: Vec<String> = Vec::new();
    assert(text::string_views(args@) =~= Seq::<Seq<char>>::empty());
    push_arg(&mut args, "--audio-buffer=0.2");
    push_arg(&mut args, "--vd-lavc-threads=0");
    push_arg(&mut args, "--cache=yes");
    push_arg(&mut args, "--cache-pause=yes");
    push_arg(&mut args, "--demuxer-lavf-o=");
    push_arg(&mut args, "--demuxer-lavf-probe-info=auto");
    push_arg(&mut args, "--demuxer-lavf-analyzeduration=0");
    push_arg(&mut args, "--video-latency-hacks=no");
    push_arg(&mut args, "--stream-buffer-size=128KiB");
    assert(text::string_views(args@) =~= vod_buffering_args_spec());
    args
}

/// The options of live playback: an idle window controlled over IPC at
/// `ipc_path`, starting at the live edge, with no global log (which would
/// record signed stream URLs), long caches and reconnection.
pub open spec fn live_mpv_args_spec(ipc_path: Seq<char>) -> Seq<Seq<char>> {
    seq!["--idle=yes"@, "--force-window=immediate"@, "--profile=low-latency"@, "--keep-open=yes"@,
        "--save-position-on-quit=no"@, "--resume-playback=no"@, "--log-file="@,
        "--input-ipc-server="@ + ipc_path, "--script-opts-append=double_video_fps=no"@,
        "--referrer=https://live.bilibili.com/"@, "--cache=yes"@, "--cache-secs=3600"@,
        "--demuxer-readahead-secs=3600"@, "--network-timeout=10"@,
        "--stream-lavf-o=reconnect=1,reconnect_streamed=1,reconnect_delay_max=5"@, "--hwdec=auto-safe"@]
}

/// The options of live playback with its IPC socket at `ipc_path`.
pub fn live_mpv_args(ipc_path: &str) -> (res: Vec<String>)
    ensures
        text::string_views(res@) == live_mpv_args_spec(ipc_path@),
{
    let mut args: Vec<String> = Vec::new();
    assert(text::string_views(args@) =~= Seq::<Seq<char>>::empty());
    push_arg(&mut args, "--idle=yes");
    push_arg(&mut args, "--force-window=immediate");
    push_arg(&mut args, "--profile=low-latency");
    push_arg(&mut args, "--keep-open=yes");
    push_arg(&mut args, "--save-position-on-quit=no");
    push_arg(&mut args, "--resume-playback=no");
    push_arg(&mut args, "--log-file=");
    let mut ipc = text::to_owned_string("--input-ipc-server=");
    text::push_str(&mut ipc, ipc_path);
    let ghost ipc_view = ipc@;
    let ghost before = args@;
    args.push(ipc);
    assert(text::string_views(args@) =~= text::string_views(before).push(ipc_view));
    push_arg(&mut args, "--script-opts-append=double_video_fps=no");
    push_arg(&mut args, "--referrer=https://live.bilibili.com/");
    push_arg(&mut args, "--cache=yes");
    push_arg(&mut args, "--cache-secs=3600");
    push_arg(&mut args, "--demuxer-readahead-secs=3600");
    push_arg(&mut args, "--network-timeout=10");
    push_arg(&mut args, "--stream-lavf-o=reconnect=1,reconnect_streamed=1,reconnect_delay_max=5");
    push_arg(&mut args, "--hwdec=auto-safe");
    assert(text::string_views(args@) =~= live_mpv_args_spec(ipc_path@));
    args
}

/// Why an mpv IPC command failed.
#[derive(Debug, Clone, PartialEq, Eq)]
pub enum MpvError {
    /// mpv answered with this error.
    Failed(String),
    /// The reply carried no status.
    NoStatus,
}

/// How an mpv IPC reply reads: accepted when its `error` member is
/// `success`, failed with any other text there, and without status where
/// there is no such text.
pub open spec fn mpv_status(reply: JsonValue, res: Result<(), MpvError>) -> bool {
    match json::member(reply, "error"@) {
        Some(e) => match json::as_str(e) {
            Some(s) => if s == "success"@ {
                res is Ok
            } else {
                res matches Err(MpvError::Failed(m)) && m@ == s
            },
            None => res == Err::<(), MpvError>(MpvError::NoStatus),
        },
        None => res == Err::<(), MpvError>(MpvError::NoStatus),
    }
}

/// Accepts an mpv IPC reply whose `error` member is `success`.
pub fn ensure_mpv_success(reply: &JsonValue) -> (res: Result<(), MpvError>)
    ensures
        mpv_status(*reply, res),
{
    match reply.get("error") {
        Some(e) => match e.as_str() {
            Some(s) => {
                if text::str_eq(s, "success") {
                    Ok(())
                } else {
                    Err(MpvError::Failed(text::to_owned_string(s)))
                }
            },
            None => Err(MpvError::NoStatus),
        },
        None => Err(MpvError::NoStatus),
    }
}

/// `line` is the reply to request `request_id`.
pub open spec fn answers(line: JsonValue, request_id: u64) -> bool {
    match json::member(line, "request_id"@) {
        Some(r) => json::as_u64(r) == Some(request_id),
        None => false,
    }
}

fn is_reply_to(line: &JsonValue, request_id: u64) -> (res: bool)
    ensures
        res == answers(*line, request_id),
{
    match line.get("request_id") {
        Some(r) => match r.as_u64() {
            Some(n) => n == request_id,
            None => false,
        },
        None => false,
    }
}

/// A line mpv writes after a command: `None` while it is not the reply to
/// request `request_id` (events, and replies to other requests, come in
/// between), else the reply's status.
pub fn command_reply(line: &JsonValue, request_id: u64) -> (res: Option<Result<(), MpvError>>)
    ensures
        !answers(*line, request_id) ==> res is None,
        answers(*line, request_id) ==> (res matches Some(r) && mpv_status(*line, r)),
{
    if is_reply_to(line, request_id) {
        Some(ensure_mpv_success(line))
    } else {
        None
    }
}

/// Member `key` of `v` is the string `text`.
pub open spec fn member_is(v: JsonValue, key: Seq<char>, text: Seq<char>) -> bool {
    match json::member(v, key) {
        Some(x) => json::as_str(x) == Some(text),
        None => false,
    }
}

fn member_is_exec(v: &JsonValue, key: &str, text_in: &str) -> (res: bool)
    ensures
        res == member_is(*v, key@, text_in@),
{
    match v.get(key) {
        Some(x) => match x.as_str() {
            Some(t) => text::str_eq(t, text_in),
            None => false,
        },
        None => false,
    }
}

/// Where loading a file into mpv stands.
#[derive(Debug, Clone, PartialEq, Eq)]
pub enum LoadStep {
    /// Wait for the next line.
    Waiting,
    /// The command succeeded and the file is loaded.
    Loaded,
    /// mpv refused the command.
    Refused(MpvError),
    /// mpv could not open the live stream.
    LiveFailed,
}

/// The wait for a `loadfile` command: its reply and the `file-loaded` event
/// may come in either order; a live stream fails on an `end-file` event
/// whose reason is `error`.
pub struct LoadWatch {
    pub request_id: u64,
    pub live: bool,
    pub command_ok: bool,
    pub loaded: bool,
}

impl LoadWatch {
    /// The wait for request `request_id`, for a live stream or not.
    pub fn new(request_id: u64, live: bool) -> (res: LoadWatch)
        ensures
            res == (LoadWatch { request_id, live, command_ok: false, loaded: false }),
    {
        LoadWatch { request_id, live, command_ok: false, loaded: false }
    }

    /// Reads one line that mpv wrote.
    pub fn observe(&mut self, line: &JsonValue) -> (res: LoadStep)
        ensures
            final(self).request_id == old(self).request_id,
            final(self).live == old(self).live,
            answers(*line, old(self).request_id) && !mpv_status(*line, Ok(())) ==> (res matches LoadStep::Refused(e)
                && mpv_status(*line, Err(e)) && *final(self) == *old(self)),
            !(answers(*line, old(self).request_id) && !mpv_status(*line, Ok(()))) ==> {
                &&& final(self).command_ok == (old(self).command_ok || answers(*line, old(self).request_id))
                &&& final(self).loaded == (old(self).loaded || member_is(*line, "event"@, "file-loaded"@))
                &&& if old(self).live && member_is(*line, "event"@, "end-file"@) && member_is(*line, "reason"@, "error"@) {
                    res == LoadStep::LiveFailed
                } else if final(self).command_ok && final(self).loaded {
                    res == LoadStep::Loaded
                } else {
                    res == LoadStep::Waiting
                }
            },
    {
        match command_reply(line, self.request_id) {
            Some(Err(e)) => return LoadStep::Refused(e),
            Some(Ok(())) => {
                self.command_ok = true;
            },
            None => {},
        }
        if member_is_exec(line, "event", "file-loaded") {
            self.loaded = true;
        }
        if self.live && member_is_exec(line, "event", "end-file") && member_is_exec(line, "reason", "error") {
            return LoadStep::LiveFailed;
        }
        if self.command_ok && self.loaded {
            LoadStep::Loaded
        } else {
            LoadStep::Waiting
        }
    }
}

/// The text in the `data` member of an mpv reply (`get_property` of a
/// string property).
pub fn reply_text(reply: &JsonValue) -> (res: Option<String>)
    ensures
        match json::member(*reply, "data"@) {
            Some(d) => match json::as_str(d) {
                Some(t) => (res matches Some(r) && r@ == t),
                None => res is None,
            },
            None => res is None,
        },
{
    match reply.get("data") {
        Some(d) => match d.as_str() {
            Some(t) => Some(text::to_owned_string(t)),
            None => None,
        },
        None => None,
    }
}

/// The audio URL contains a comma, which an mpv option list cannot hold.
#[derive(Debug, Clone, Copy, PartialEq, Eq)]
pub struct CommaInAudioUrl;

/// The options of a `loadfile` that switches streams in place:
/// `audio-files={audio_url},start={start}`, where `start` is the position
/// as mpv reads it.
pub fn switch_load_options(audio_url: &str, start: &str) -> (res: Result<String, CommaInAudioUrl>)
    ensures
        audio_url@.contains(',') ==> res is Err,
        !audio_url@.contains(',') ==> (res matches Ok(o) && o@ == "audio-files="@ + audio_url@ + ",start="@ + start@),
{
    let cs = text::chars_of(audio_url);
    let mut i: usize = 0;
    while i < cs.len()
        invariant
            i <= cs.len(),
            cs@ == audio_url@,
            forall|k: int| 0 <= k < i ==> cs@[k] != ',',
        decreases cs.len() - i,
    {
        if cs[i] == ',' {
            assert(audio_url@[i as int] == ',');
            return Err(CommaInAudioUrl);
        }
        i = i + 1;
    }
    let mut o = text::to_owned_string("audio-files=");
    text::push_str(&mut o, audio_url);
    text::push_str(&mut o, ",start=");
    text::push_str(&mut o, start);
    Ok(o)
}

/// The page of a video on the site, with the part number from the second
/// part on.
pub open spec fn video_page_url_spec(bvid: Seq<char>, page: Option<i32>) -> Seq<char> {
    match page {
        Some(p) => if p > 1 {
            "https://www.bilibili.com/video/"@ + bvid + "?p="@ + text::signed_decimal(p as int)
        } else {
            "https://www.bilibili.com/video/"@ + bvid
        },
        None => "https://www.bilibili.com/video/"@ + bvid,
    }
}

/// The page of a video on the site.
pub fn video_page_url(bvid: &str, page: Option<i32>) -> (res: String)
    ensures
        res@ == video_page_url_spec(bvid@, page),
{
    let mut url = text::to_owned_string("https://www.bilibili.com/video/");
    text::push_str(&mut url, bvid);
    if let Some(p) = page {
        if p > 1 {
            text::push_str(&mut url, "?p=");
            text::push_signed_decimal(&mut url, p as i64);
        }
    }
    url
}

/// The yt-dlp format of a quality cap: the best streams, no taller than
/// `max_height` when there is a cap.
pub open spec fn ytdl_format_spec(max_height: Option<u32>) -> Seq<char> {
    match max_height {
        None => "bestvideo+bestaudio/best"@,
        Some(h) => "bestvideo[height<="@ + text::decimal(h as nat) + "]+bestaudio/best[height<="@
            + text::decimal(h as nat) + "]"@,
    }
}

/// The yt-dlp format of a quality cap.
pub fn ytdl_format(max_height: Option<u32>) -> (res: String)
    ensures
        res@ == ytdl_format_spec(max_height),
{
    match max_height {
        None => text::to_owned_string("bestvideo+bestaudio/best"),
        Some(h) => {
            let mut f = text::to_owned_string("bestvideo[height<=");
            text::push_decimal(&mut f, h as u64);
            text::push_str(&mut f, "]+bestaudio/best[height<=");
            text::push_decimal(&mut f, h as u64);
            text::push_str(&mut f, "]");
            f
        },
    }
}

/// Where on-demand playback takes its media from: the local proxy's audio
/// and video URLs, or yt-dlp with a format.
pub enum VodSource {
    Proxy { audio_url: String, video_url: String },
    Ytdl { format: String },
}

/// The options and target of on-demand playback: yt-dlp cookies when
/// logged in, a window at once, normal buffering, the page as referrer, the
/// IPC socket and the danmaku script, then the media.
pub open spec fn vod_mpv_args_spec(cookie_file: Option<Seq<char>>, page_url: Seq<char>, ipc_path: Seq<char>,
    script_path: Seq<char>, source: VodSource) -> Seq<Seq<char>>
{
    let cookies = match cookie_file {
        Some(c) => seq!["--ytdl-raw-options=cookies="@ + c],
        None => seq![],
    };
    let fixed = seq!["--force-window=immediate"@] + vod_buffering_args_spec() + seq![
        "--referrer="@ + page_url,
        "--http-header-fields=Referer: "@ + page_url,
        "--input-ipc-server="@ + ipc_path,
        "--script="@ + script_path,
        "--script-opts-append=double_video_fps=no"@,
        "--msg-level=ffmpeg=error,vd=warn"@,
    ];
    let media = match source {
        VodSource::Proxy { audio_url, video_url } => seq!["--ytdl=no"@, "--audio-file="@ + audio_url@, video_url@],
        VodSource::Ytdl { format } => seq!["--ytdl-format="@ + format@, page_url],
    };
    cookies + fixed + media
}

fn push_joined(args: &mut Vec<String>, prefix: &str, value: &str)
    ensures
        text::string_views(final(args)@) == text::string_views(old(args)@).push(prefix@ + value@),
{
    let mut a = text::to_owned_string(prefix);
    text::push_str(&mut a, value);
    let ghost v = a@;
    args.push(a);
    assert(text::string_views(args@) =~= text::string_views(old(args)@).push(v));
}

/// The command-line options and target of on-demand playback.
pub fn vod_mpv_args(cookie_file: Option<&str>, page_url: &str, ipc_path: &str, script_path: &str,
    source: &VodSource) -> (res: Vec<String>)
    ensures
        text::string_views(res@) == vod_mpv_args_spec(match cookie_file {
            Some(c) => Some(c@),
            None => None,
        }, page_url@, ipc_path@, script_path@, *source),
{
    let mut args: Vec<String> = Vec::new();
    assert(text::string_views(args@) =~= Seq::<Seq<char>>::empty());
    if let Some(c) = cookie_file {
        push_joined(&mut args, "--ytdl-raw-options=cookies=", c);
    }
    let ghost cookies = text::string_views(args@);
    push_arg(&mut args, "--force-window=immediate");
    let buffering = vod_buffering_args();
    let mut i: usize = 0;
    let ghost head = text::string_views(args@);
    while i < buffering.len()
        invariant
            i <= buffering.len(),
            text::string_views(buffering@) == vod_buffering_args_spec(),
            text::string_views(args@) == head + text::string_views(buffering@).take(i as int),
        decreases buffering.len() - i,
    {
        push_arg(&mut args, buffering[i].as_str());
        assert(text::string_views(buffering@).take(i + 1) =~= text::string_views(buffering@).take(i as int).push(buffering@[i as int]@));
        i = i + 1;
    }
    assert(text::string_views(buffering@).take(buffering.len() as int) =~= text::string_views(buffering@));
    push_joined(&mut args, "--referrer=", page_url);
    push_joined(&mut args, "--http-header-fields=Referer: ", page_url);
    push_joined(&mut args, "--input-ipc-server=", ipc_path);
    push_joined(&mut args, "--script=", script_path);
    push_arg(&mut args, "--script-opts-append=double_video_fps=no");
    push_arg(&mut args, "--msg-level=ffmpeg=error,vd=warn");
    match source {
        VodSource::Proxy { audio_url, video_url } => {
            push_arg(&mut args, "--ytdl=no");
            push_joined(&mut args, "--audio-file=", audio_url.as_str());
            push_arg(&mut args, video_url.as_str());
        },
        VodSource::Ytdl { format } => {
            push_joined(&mut args, "--ytdl-format=", format.as_str());
            push_arg(&mut args, page_url);
        },
    }
    assert(text::string_views(args@) =~= vod_mpv_args_spec(match cookie_file {
        Some(c) => Some(c@),
        None => None,
    }, page_url@, ipc_path@, script_path@, *source));
    args
}

/// The page of an episode on the site.
pub open spec fn episode_page_url_spec(ep_id: i64) -> Seq<char> {
    "https://www.bilibili.com/bangumi/play/ep"@ + text::signed_decimal(ep_id as int)
}

pub fn episode_page_url(ep_id: i64) -> (res: String)
    ensures
        res@ == episode_page_url_spec(ep_id),
{
    let mut url = text::to_owned_string("https://www.bilibili.com/bangumi/play/ep");
    text::push_signed_decimal(&mut url, ep_id);
    url
}

/// The options and target of episode playback: yt-dlp cookies when logged
/// in, a window at once, interpolated frames, the page as referrer, then the
/// media.
pub open spec fn episode_mpv_args_spec(cookie_file: Option<Seq<char>>, page_url: Seq<char>, source: VodSource) -> Seq<Seq<char>> {
    let cookies = match cookie_file {
        Some(c) => seq!["--ytdl-raw-options=cookies="@ + c],
        None => seq![],
    };
    let fixed = seq![
        "--force-window=immediate"@,
        "--script-opts-append=double_video_fps=yes"@,
        "--referrer="@ + page_url,
        "--http-header-fields=Referer: "@ + page_url,
    ];
    let media = match source {
        VodSource::Proxy { audio_url, video_url } => seq!["--ytdl=no"@, "--audio-file="@ + audio_url@, video_url@],
        VodSource::Ytdl { format } => seq!["--ytdl-format="@ + format@, page_url],
    };
    cookies + fixed + media
}

/// The command-line options and target of episode playback.
pub fn episode_mpv_args(cookie_file: Option<&str>, page_url: &str, source: &VodSource) -> (res: Vec<String>)
    ensures
        text::string_views(res@) == episode_mpv_args_spec(match cookie_file {
            Some(c) => Some(c@),
            None => None,
        }, page_url@, *source),
{
    let mut args: Vec<String> = Vec::new();
    assert(text::string_views(args@) =~= Seq::<Seq<char>>::empty());
    if let Some(c) = cookie_file {
        push_joined(&mut args, "--ytdl-raw-options=cookies=", c);
    }
    push_arg(&mut args, "--force-window=immediate");
    push_arg(&mut args, "--script-opts-append=double_video_fps=yes");
    push_joined(&mut args, "--referrer=", page_url);
    push_joined(&mut args, "--http-header-fields=Referer: ", page_url);
    match source {
        VodSource::Proxy { audio_url, video_url } => {
            push_arg(&mut args, "--ytdl=no");
            push_joined(&mut args, "--audio-file=", audio_url.as_str());
            push_arg(&mut args, video_url.as_str());
        },
        VodSource::Ytdl { format } => {
            push_joined(&mut args, "--ytdl-format=", format.as_str());
            push_arg(&mut args, page_url);
        },
    }
    proof {
        let c = match cookie_file {
            Some(c) => Some(c@),
            None => None,
        };
        assert(text::string_views(args@) =~= episode_mpv_args_spec(c, page_url@, *source));
    }
    args
}

/// The options of the mpv process that plays a playlist, items being
/// loaded into it over IPC: idle between items, a window at once, quiet
/// decoder logs, no yt-dlp, interpolated frames, and the IPC socket.
pub open spec fn playlist_mpv_args_spec(ipc_path: Seq<char>) -> Seq<Seq<char>> {
    seq![
        "--idle=yes"@,
        "--force-window=immediate"@,
        "--msg-level=ffmpeg=error,vd=warn"@,
        "--ytdl=no"@,
        "--script-opts-append=double_video_fps=yes"@,
        "--input-ipc-server="@ + ipc_path,
    ]
}

pub fn playlist_mpv_args(ipc_path: &str) -> (res: Vec<String>)
    ensures
        text::string_views(res@) == playlist_mpv_args_spec(ipc_path@),
{
    let mut args: Vec<String> = Vec::new();
    assert(text::string_views(args@) =~= Seq::<Seq<char>>::empty());
    push_arg(&mut args, "--idle=yes");
    push_arg(&mut args, "--force-window=immediate");
    push_arg(&mut args, "--msg-level=ffmpeg=error,vd=warn");
    push_arg(&mut args, "--ytdl=no");
    push_arg(&mut args, "--script-opts-append=double_video_fps=yes");
    push_joined(&mut args, "--input-ipc-server=", ipc_path);
    assert(text::string_views(args@) =~= playlist_mpv_args_spec(ipc_path@));
    args
}

/// The script options that tell mpv's scripts the item's cid.
pub fn cid_script_opts(cid: i64) -> (res: String)
    ensures
        res@ == "cid="@ + text::signed_decimal(cid as int),
{
    let mut o = text::to_owned_string("cid=");
    text::push_signed_decimal(&mut o, cid);
    o
}

/// The reason of an `end-file` event (`unknown` where it gives none);
/// `None` for any other line.
pub fn end_file_reason(line: &JsonValue) -> (res: Option<String>)
    ensures
        !member_is(*line, "event"@, "end-file"@) ==> res is None,
        member_is(*line, "event"@, "end-file"@) ==> (res matches Some(r) && r@ == match json::member(*line, "reason"@) {
            Some(x) => match json::as_str(x) {
                Some(t) => t,
                None => "unknown"@,
            },
            None => "unknown"@,
        }),
{
    if !member_is_exec(line, "event", "end-file") {
        return None;
    }
    match line.get("reason") {
        Some(x) => match x.as_str() {
            Some(t) => Some(text::to_owned_string(t)),
            None => Some(text::to_owned_string("unknown")),
        },
        None => Some(text::to_owned_string("unknown")),
    }
}

} // verus!
