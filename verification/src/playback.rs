//! The decisions of the playback loops, apart from the I/O that they drive:
//! how a live stream fails over between its URLs, and how a playlist reacts
//! to mpv's end-of-file events and decoder diagnostics. The application
//! performs each action and hands back what came of it as the next event.

use vstd::prelude::*;
use crate::player::{is_corrupt_video_log, is_corrupt_video_log_spec, live_retry_delay, live_retry_delay_ms, should_reload_live_reason};
use crate::text;

verus! {

// ---------------------------------------------------------------------------
// Live failover
// ---------------------------------------------------------------------------

/// Failed reload attempts in a row after which a live stream is given up.
pub const MAX_LIVE_ATTEMPTS: usize = 8;

/// A stream that played this long counts as recovered: the next failure
/// starts a fresh series of attempts.
pub const LIVE_RECOVERED_MS: u64 = 30000;

/// The failover state of a live stream: the next URL to try of those known,
/// the failed attempts in a row, and when a stream last loaded.
#[derive(Debug, Clone, Copy, PartialEq, Eq, Structural)]
pub struct LiveFailover {
    pub next_url: usize,
    pub url_count: usize,
    pub consecutive_failures: usize,
    pub loaded_at_ms: u64,
}

/// What happened, as the live loop reports it.
#[derive(Debug, Clone, PartialEq, Eq)]
pub enum LiveEvent {
    /// mpv ended the file for this reason.
    EndFile(String),
    /// The wait before an attempt is over.
    BackoffDone,
    /// A refresh of the stream URLs gave this many URLs, or failed.
    UrlsRefreshed(Option<usize>),
    /// Loading the URL asked for succeeded or failed.
    LoadFinished(bool),
}

/// What the live loop does next.
#[derive(Debug, Clone, Copy, PartialEq, Eq, Structural)]
pub enum LiveAction {
    /// Nothing: the event asks for no reload.
    Ignore,
    /// Wait this many milliseconds, then report `BackoffDone`.
    Backoff(u64),
    /// Fetch fresh stream URLs, then report `UrlsRefreshed`.
    RefreshUrls,
    /// Load the URL at this index, then report `LoadFinished`.
    Load(usize),
    /// The stream plays again.
    Playing,
    /// Give up: quit mpv.
    Quit,
}

pub open spec fn live_inv(s: LiveFailover) -> bool {
    s.next_url <= s.url_count && s.consecutive_failures <= MAX_LIVE_ATTEMPTS + 1
}

/// One more failed attempt: past the limit the stream is given up,
/// otherwise the loop waits before trying again.
pub open spec fn attempt_spec(s: LiveFailover) -> (LiveFailover, LiveAction) {
    let failures = s.consecutive_failures + 1;
    let t = LiveFailover { consecutive_failures: failures as usize, ..s };
    if failures > MAX_LIVE_ATTEMPTS {
        (t, LiveAction::Quit)
    } else {
        (t, LiveAction::Backoff(live_retry_delay_ms(failures)))
    }
}

/// The failover step: the state after `event` at time `now_ms`, and what to
/// do next.
pub open spec fn live_step_spec(s: LiveFailover, event: LiveEvent, now_ms: u64) -> (LiveFailover, LiveAction) {
    match event {
        LiveEvent::EndFile(reason) => {
            if !(reason@ == "eof"@ || reason@ == "error"@ || reason@ == "redirect"@) {
                (s, LiveAction::Ignore)
            } else {
                let recovered = now_ms >= s.loaded_at_ms && now_ms - s.loaded_at_ms >= LIVE_RECOVERED_MS;
                let base = if recovered { LiveFailover { consecutive_failures: 0, ..s } } else { s };
                attempt_spec(base)
            }
        },
        LiveEvent::BackoffDone => {
            if s.next_url >= s.url_count {
                (s, LiveAction::RefreshUrls)
            } else {
                (LiveFailover { next_url: (s.next_url + 1) as usize, ..s }, LiveAction::Load(s.next_url))
            }
        },
        LiveEvent::UrlsRefreshed(result) => match result {
            Some(n) => if n > 0 {
                (LiveFailover { url_count: n, next_url: 1, ..s }, LiveAction::Load(0))
            } else {
                attempt_spec(s)
            },
            None => attempt_spec(s),
        },
        LiveEvent::LoadFinished(ok) => {
            if ok {
                (LiveFailover { loaded_at_ms: now_ms, ..s }, LiveAction::Playing)
            } else {
                attempt_spec(s)
            }
        },
    }
}

impl LiveFailover {
    /// The state once the first of `url_count` URLs has loaded at `now_ms`.
    pub fn new(url_count: usize, now_ms: u64) -> (res: LiveFailover)
        requires
            url_count >= 1,
        ensures
            res == (LiveFailover { next_url: 1, url_count, consecutive_failures: 0, loaded_at_ms: now_ms }),
            live_inv(res),
    {
        LiveFailover { next_url: 1, url_count, consecutive_failures: 0, loaded_at_ms: now_ms }
    }

    fn attempt(&mut self) -> (action: LiveAction)
        requires
            live_inv(*old(self)),
            old(self).consecutive_failures <= MAX_LIVE_ATTEMPTS,
        ensures
            (*final(self), action) == attempt_spec(*old(self)),
    {
        self.consecutive_failures = self.consecutive_failures + 1;
        if self.consecutive_failures > MAX_LIVE_ATTEMPTS {
            LiveAction::Quit
        } else {
            LiveAction::Backoff(live_retry_delay(self.consecutive_failures))
        }
    }

    /// Decides what follows `event` at time `now_ms`. A state that has given
    /// up takes no more events.
    pub fn step(&mut self, event: LiveEvent, now_ms: u64) -> (action: LiveAction)
        requires
            live_inv(*old(self)),
            old(self).consecutive_failures <= MAX_LIVE_ATTEMPTS,
        ensures
            (*final(self), action) == live_step_spec(*old(self), event, now_ms),
            live_inv(*final(self)),
    {
        match event {
            LiveEvent::EndFile(reason) => {
                if !should_reload_live_reason(reason.as_str()) {
                    return LiveAction::Ignore;
                }
                if now_ms >= self.loaded_at_ms && now_ms - self.loaded_at_ms >= LIVE_RECOVERED_MS {
                    self.consecutive_failures = 0;
                }
                self.attempt()
            },
            LiveEvent::BackoffDone => {
                if self.next_url >= self.url_count {
                    LiveAction::RefreshUrls
                } else {
                    let index = self.next_url;
                    self.next_url = self.next_url + 1;
                    LiveAction::Load(index)
                }
            },
            LiveEvent::UrlsRefreshed(result) => match result {
                Some(n) => {
                    if n > 0 {
                        self.url_count = n;
                        self.next_url = 1;
                        LiveAction::Load(0)
                    } else {
                        self.attempt()
                    }
                },
                None => self.attempt(),
            },
            LiveEvent::LoadFinished(ok) => {
                if ok {
                    self.loaded_at_ms = now_ms;
                    LiveAction::Playing
                } else {
                    self.attempt()
                }
            },
        }
    }
}

/// A stream is given up exactly on the ninth failed attempt in a row; until
/// then every failure is followed by a wait of at most 4 s that never
/// shrinks from one attempt to the next.
pub proof fn lemma_live_attempts_bounded(s: LiveFailover)
    requires
        live_inv(s),
        s.consecutive_failures <= MAX_LIVE_ATTEMPTS,
    ensures
        (attempt_spec(s).1 == LiveAction::Quit) <==> s.consecutive_failures == MAX_LIVE_ATTEMPTS,
        attempt_spec(s).1 matches LiveAction::Backoff(d) ==> d <= 4000
            && d >= live_retry_delay_ms(s.consecutive_failures as int),
{
    crate::player::lemma_live_retry_bounded(s.consecutive_failures as int, s.consecutive_failures + 1);
}

/// Between two refreshes each known URL is loaded at most once, in order:
/// a load asks for the next index, which is in range.
pub proof fn lemma_live_urls_in_order(s: LiveFailover, now_ms: u64)
    requires
        live_inv(s),
    ensures
        live_step_spec(s, LiveEvent::BackoffDone, now_ms).1 matches LiveAction::Load(i) ==> i == s.next_url
            && i < s.url_count && live_step_spec(s, LiveEvent::BackoffDone, now_ms).0.next_url == i + 1,
        s.next_url == s.url_count ==> live_step_spec(s, LiveEvent::BackoffDone, now_ms).1 == LiveAction::RefreshUrls,
{
}

// ---------------------------------------------------------------------------
// Playlist playback
// ---------------------------------------------------------------------------

/// Corrupt-frame diagnostics older than this no longer count.
pub const DECODE_WINDOW_MS: u64 = 3000;

/// Diagnostics within the window that make the playlist switch CDN.
pub const DECODE_ERRORS_TO_SWITCH: usize = 3;

/// The least time between two CDN switches prompted by diagnostics.
pub const SWITCH_SPACING_MS: u64 = 5000;

/// What the playlist loop keeps between events: whether the current item's
/// CDN has shown corruption, whether any item played to its end, the times
/// of recent corrupt-frame diagnostics, when the CDN was last switched, and
/// whether a pending switch was prompted by an end-of-file error.
#[derive(Debug, Clone)]
pub struct PlaylistMonitor {
    pub corrupted: bool,
    pub played_any: bool,
    pub decode_errors: Vec<u64>,
    pub last_switch_ms: Option<u64>,
    pub switching_after_end: bool,
}

pub struct MonitorModel {
    pub corrupted: bool,
    pub played_any: bool,
    pub decode_errors: Seq<u64>,
    pub last_switch_ms: Option<u64>,
    pub switching_after_end: bool,
}

impl View for PlaylistMonitor {
    type V = MonitorModel;

    open spec fn view(&self) -> MonitorModel {
        MonitorModel {
            corrupted: self.corrupted,
            played_any: self.played_any,
            decode_errors: self.decode_errors@,
            last_switch_ms: self.last_switch_ms,
            switching_after_end: self.switching_after_end,
        }
    }
}

/// What the playlist loop reports.
#[derive(Debug, Clone, PartialEq, Eq)]
pub enum PlaylistEvent {
    /// mpv exited on its own, successfully or not.
    ChildExited { success: bool },
    /// mpv ended the current file for this reason.
    EndFile(String),
    /// A line of mpv's diagnostics.
    DecoderLine(String),
    /// The CDN switch asked for took place or not.
    SwitchFinished { switched: bool },
    /// Preparing the next item found one or not.
    NextPrepared { found: bool },
    /// mpv quit after the last item, successfully or not.
    QuitFinished { success: bool },
}

/// How a playlist ends.
#[derive(Debug, Clone, Copy, PartialEq, Eq, Structural)]
pub enum PlaylistOutcome {
    /// It ended well.
    Completed,
    /// Every item failed: nothing played to its end.
    AllFailed,
    /// mpv exited with a failure.
    ExitFailed,
}

/// What the playlist loop does next.
#[derive(Debug, Clone, Copy, PartialEq, Eq, Structural)]
pub enum PlaylistAction {
    /// Nothing.
    Continue,
    /// Record a corruption for the current CDN if asked, then switch to a
    /// working CDN and report `SwitchFinished`.
    TrySwitch { record_corruption: bool },
    /// Report the item's end, record a success for its CDN if asked, then
    /// prepare the next item and report `NextPrepared`.
    Advance { record_success: bool },
    /// Start the next item.
    StartNext,
    /// No item is left: quit mpv and report `QuitFinished`.
    QuitPlayer,
    /// The playlist is over; record a success for the CDN first if asked.
    Finish { record_success: bool, outcome: PlaylistOutcome },
}

/// The diagnostics still in the window at `now_ms`: the oldest ones dropped
/// while they are more than the window old.
pub open spec fn drop_stale(times: Seq<u64>, now_ms: u64) -> Seq<u64>
    decreases times.len(),
{
    if times.len() > 0 && now_ms >= times[0] && now_ms - times[0] > DECODE_WINDOW_MS {
        drop_stale(times.drop_first(), now_ms)
    } else {
        times
    }
}

/// Whether a diagnostics-prompted switch is allowed at `now_ms`.
pub open spec fn switch_allowed(last: Option<u64>, now_ms: u64) -> bool {
    match last {
        None => true,
        Some(t) => now_ms >= t && now_ms - t > SWITCH_SPACING_MS,
    }
}

/// The playlist step: the state after `event` at time `now_ms`, and what to
/// do next.
pub open spec fn playlist_step_spec(m: MonitorModel, event: PlaylistEvent, now_ms: u64) -> (MonitorModel, PlaylistAction) {
    match event {
        PlaylistEvent::ChildExited { success } => (m, PlaylistAction::Finish {
            record_success: success && !m.corrupted,
            outcome: if success { PlaylistOutcome::Completed } else { PlaylistOutcome::ExitFailed },
        }),
        PlaylistEvent::EndFile(reason) => {
            if reason@ == "error"@ {
                (MonitorModel { corrupted: true, switching_after_end: true, ..m },
                    PlaylistAction::TrySwitch { record_corruption: !m.corrupted })
            } else if reason@ == "eof"@ {
                (MonitorModel { played_any: true, ..m }, PlaylistAction::Advance { record_success: !m.corrupted })
            } else {
                (m, PlaylistAction::Continue)
            }
        },
        PlaylistEvent::DecoderLine(line) => {
            let errors = if is_corrupt_video_log_spec(line@) {
                drop_stale(m.decode_errors.push(now_ms), now_ms)
            } else {
                m.decode_errors
            };
            if errors.len() >= DECODE_ERRORS_TO_SWITCH && switch_allowed(m.last_switch_ms, now_ms) {
                (MonitorModel { decode_errors: seq![], corrupted: true, switching_after_end: false, ..m },
                    PlaylistAction::TrySwitch { record_corruption: !m.corrupted })
            } else {
                (MonitorModel { decode_errors: errors, ..m }, PlaylistAction::Continue)
            }
        },
        PlaylistEvent::SwitchFinished { switched } => {
            if switched {
                (MonitorModel { corrupted: false, last_switch_ms: Some(now_ms), ..m }, PlaylistAction::Continue)
            } else if m.switching_after_end {
                (m, PlaylistAction::Advance { record_success: false })
            } else {
                (m, PlaylistAction::Continue)
            }
        },
        PlaylistEvent::NextPrepared { found } => {
            if found {
                (MonitorModel { corrupted: false, ..m }, PlaylistAction::StartNext)
            } else {
                (m, PlaylistAction::QuitPlayer)
            }
        },
        PlaylistEvent::QuitFinished { success } => (m, PlaylistAction::Finish {
            record_success: false,
            outcome: if success && m.played_any {
                PlaylistOutcome::Completed
            } else if success {
                PlaylistOutcome::AllFailed
            } else {
                PlaylistOutcome::ExitFailed
            },
        }),
    }
}

proof fn lemma_drop_stale_skip(times: Seq<u64>, now_ms: u64, k: int)
    requires
        0 <= k <= times.len(),
        forall|j: int| 0 <= j < k ==> now_ms >= #[trigger] times[j] && now_ms - times[j] > DECODE_WINDOW_MS,
    ensures
        drop_stale(times, now_ms) == drop_stale(times.skip(k), now_ms),
    decreases k,
{
    if k > 0 {
        assert(times.drop_first().skip(k - 1) =~= times.skip(k));
        assert forall|j: int| 0 <= j < k - 1 implies now_ms >= #[trigger] times.drop_first()[j]
            && now_ms - times.drop_first()[j] > DECODE_WINDOW_MS by {
            assert(times.drop_first()[j] == times[j + 1]);
        }
        lemma_drop_stale_skip(times.drop_first(), now_ms, k - 1);
    } else {
        assert(times.skip(0) =~= times);
    }
}

/// The diagnostics of `times` still in the window at `now_ms`.
fn recent_errors(times: &Vec<u64>, now_ms: u64) -> (res: Vec<u64>)
    ensures
        res@ == drop_stale(times@, now_ms),
{
    let mut start: usize = 0;
    while start < times.len() && now_ms >= times[start] && now_ms - times[start] > DECODE_WINDOW_MS
        invariant
            start <= times.len(),
            forall|j: int| 0 <= j < start ==> now_ms >= #[trigger] times@[j] && now_ms - times@[j] > DECODE_WINDOW_MS,
        decreases times.len() - start,
    {
        start = start + 1;
    }
    proof { lemma_drop_stale_skip(times@, now_ms, start as int); }
    let mut out: Vec<u64> = Vec::new();
    let mut i: usize = start;
    while i < times.len()
        invariant
            start <= i <= times.len(),
            out@ == times@.subrange(start as int, i as int),
        decreases times.len() - i,
    {
        out.push(times[i]);
        i = i + 1;
        assert(out@ =~= times@.subrange(start as int, i as int));
    }
    assert(times@.skip(start as int) =~= times@.subrange(start as int, times.len() as int));
    out
}

impl PlaylistMonitor {
    /// The state when the first item starts.
    pub fn new() -> (res: PlaylistMonitor)
        ensures
            !res.corrupted,
            !res.played_any,
            res.decode_errors@ == Seq::<u64>::empty(),
            res.last_switch_ms is None,
            !res.switching_after_end,
    {
        PlaylistMonitor {
            corrupted: false,
            played_any: false,
            decode_errors: Vec::new(),
            last_switch_ms: None,
            switching_after_end: false,
        }
    }

    /// Decides what follows `event` at time `now_ms`.
    pub fn step(&mut self, event: PlaylistEvent, now_ms: u64) -> (action: PlaylistAction)
        ensures
            (final(self)@, action) == playlist_step_spec(old(self)@, event, now_ms),
    {
        match event {
            PlaylistEvent::ChildExited { success } => PlaylistAction::Finish {
                record_success: success && !self.corrupted,
                outcome: if success { PlaylistOutcome::Completed } else { PlaylistOutcome::ExitFailed },
            },
            PlaylistEvent::EndFile(reason) => {
                if text::str_eq(reason.as_str(), "error") {
                    let record = !self.corrupted;
                    self.corrupted = true;
                    self.switching_after_end = true;
                    PlaylistAction::TrySwitch { record_corruption: record }
                } else if text::str_eq(reason.as_str(), "eof") {
                    self.played_any = true;
                    PlaylistAction::Advance { record_success: !self.corrupted }
                } else {
                    PlaylistAction::Continue
                }
            },
            PlaylistEvent::DecoderLine(line) => {
                if is_corrupt_video_log(line.as_str()) {
                    self.decode_errors.push(now_ms);
                    let kept = recent_errors(&self.decode_errors, now_ms);
                    self.decode_errors = kept;
                }
                let allowed = match self.last_switch_ms {
                    None => true,
                    Some(t) => now_ms >= t && now_ms - t > SWITCH_SPACING_MS,
                };
                if self.decode_errors.len() >= DECODE_ERRORS_TO_SWITCH && allowed {
                    self.decode_errors = Vec::new();
                    let record = !self.corrupted;
                    self.corrupted = true;
                    self.switching_after_end = false;
                    PlaylistAction::TrySwitch { record_corruption: record }
                } else {
                    PlaylistAction::Continue
                }
            },
            PlaylistEvent::SwitchFinished { switched } => {
                if switched {
                    self.corrupted = false;
                    self.last_switch_ms = Some(now_ms);
                    PlaylistAction::Continue
                } else if self.switching_after_end {
                    PlaylistAction::Advance { record_success: false }
                } else {
                    PlaylistAction::Continue
                }
            },
            PlaylistEvent::NextPrepared { found } => {
                if found {
                    self.corrupted = false;
                    PlaylistAction::StartNext
                } else {
                    PlaylistAction::QuitPlayer
                }
            },
            PlaylistEvent::QuitFinished { success } => PlaylistAction::Finish {
                record_success: false,
                outcome: if success && self.played_any {
                    PlaylistOutcome::Completed
                } else if success {
                    PlaylistOutcome::AllFailed
                } else {
                    PlaylistOutcome::ExitFailed
                },
            },
        }
    }
}

/// A CDN's corruption is recorded once per streak: a switch asks for the
/// record only when the item was not yet marked corrupted, and marks it.
/// A success is never recorded for an item marked corrupted.
pub proof fn lemma_corruption_recorded_once(m: MonitorModel, event: PlaylistEvent, now_ms: u64)
    ensures
        playlist_step_spec(m, event, now_ms).1 matches PlaylistAction::TrySwitch { record_corruption }
            ==> record_corruption == !m.corrupted && playlist_step_spec(m, event, now_ms).0.corrupted,
        playlist_step_spec(m, event, now_ms).1 matches PlaylistAction::Advance { record_success }
            ==> (record_success ==> !m.corrupted),
        playlist_step_spec(m, event, now_ms).1 matches PlaylistAction::Finish { record_success, .. }
            ==> (record_success ==> !m.corrupted),
{
}

/// A playlist whose items all failed before any played to its end is
/// reported as such, not as completed.
pub proof fn lemma_all_failed_reported(m: MonitorModel, now_ms: u64)
    requires
        !m.played_any,
    ensures
        playlist_step_spec(m, PlaylistEvent::QuitFinished { success: true }, now_ms).1
            == (PlaylistAction::Finish { record_success: false, outcome: PlaylistOutcome::AllFailed }),
{
}

/// Diagnostics-prompted switches need three corrupt-frame diagnostics
/// within the window, and come at most once per spacing interval.
pub proof fn lemma_switch_needs_recent_errors(m: MonitorModel, line: String, now_ms: u64)
    ensures
        playlist_step_spec(m, PlaylistEvent::DecoderLine(line), now_ms).1 is TrySwitch ==> {
            let errors = if is_corrupt_video_log_spec(line@) {
                drop_stale(m.decode_errors.push(now_ms), now_ms)
            } else {
                m.decode_errors
            };
            errors.len() >= DECODE_ERRORS_TO_SWITCH && switch_allowed(m.last_switch_ms, now_ms)
        },
{
}

} // verus!
