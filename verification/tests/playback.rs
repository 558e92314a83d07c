use bilibili_tui::playback::{
    LiveAction, LiveEvent, LiveFailover, PlaylistAction, PlaylistEvent, PlaylistMonitor, PlaylistOutcome,
};

#[test]
fn live_failover_walks_the_urls_then_refreshes() {
    let mut s = LiveFailover::new(2, 0);
    assert_eq!(s.step(LiveEvent::EndFile("stop".into()), 1_000), LiveAction::Ignore);
    assert_eq!(s.step(LiveEvent::EndFile("eof".into()), 1_000), LiveAction::Backoff(500));
    assert_eq!(s.step(LiveEvent::BackoffDone, 1_500), LiveAction::Load(1));
    assert_eq!(s.step(LiveEvent::LoadFinished(false), 1_600), LiveAction::Backoff(1_000));
    assert_eq!(s.step(LiveEvent::BackoffDone, 2_600), LiveAction::RefreshUrls);
    assert_eq!(s.step(LiveEvent::UrlsRefreshed(Some(3)), 2_700), LiveAction::Load(0));
    assert_eq!(s.step(LiveEvent::LoadFinished(true), 2_800), LiveAction::Playing);
    assert_eq!(s.consecutive_failures, 2);
    assert_eq!(s.step(LiveEvent::EndFile("error".into()), 40_000), LiveAction::Backoff(500));
}

#[test]
fn live_failover_gives_up_after_eight_attempts() {
    let mut s = LiveFailover::new(1, 0);
    let mut waits = Vec::new();
    let mut action = s.step(LiveEvent::EndFile("error".into()), 10);
    while let LiveAction::Backoff(ms) = action {
        waits.push(ms);
        action = s.step(LiveEvent::UrlsRefreshed(None), 10);
    }
    assert_eq!(action, LiveAction::Quit);
    assert_eq!(waits, [500, 1_000, 2_000, 4_000, 4_000, 4_000, 4_000, 4_000]);
}

#[test]
fn playlist_switches_after_three_recent_corrupt_frames() {
    let mut m = PlaylistMonitor::new();
    let bad = "h264: Invalid NAL unit size (1 > 0)";
    assert_eq!(m.step(PlaylistEvent::DecoderLine(bad.into()), 1_000), PlaylistAction::Continue);
    assert_eq!(m.step(PlaylistEvent::DecoderLine(bad.into()), 5_000), PlaylistAction::Continue);
    assert_eq!(m.step(PlaylistEvent::DecoderLine(bad.into()), 6_000), PlaylistAction::Continue);
    assert_eq!(m.decode_errors, vec![5_000, 6_000]);
    assert_eq!(
        m.step(PlaylistEvent::DecoderLine(bad.into()), 7_000),
        PlaylistAction::TrySwitch { record_corruption: true }
    );
    assert_eq!(m.step(PlaylistEvent::SwitchFinished { switched: true }, 7_100), PlaylistAction::Continue);
    assert!(!m.corrupted);
    for t in [8_000, 8_100] {
        m.step(PlaylistEvent::DecoderLine(bad.into()), t);
    }
    assert_eq!(m.step(PlaylistEvent::DecoderLine(bad.into()), 8_200), PlaylistAction::Continue);
    assert_eq!(
        m.step(PlaylistEvent::DecoderLine("other".into()), 12_200),
        PlaylistAction::TrySwitch { record_corruption: true }
    );
}

#[test]
fn playlist_end_of_file_advances_and_errors_switch_first() {
    let mut m = PlaylistMonitor::new();
    assert_eq!(m.step(PlaylistEvent::EndFile("stop".into()), 0), PlaylistAction::Continue);
    assert_eq!(
        m.step(PlaylistEvent::EndFile("error".into()), 0),
        PlaylistAction::TrySwitch { record_corruption: true }
    );
    assert_eq!(
        m.step(PlaylistEvent::SwitchFinished { switched: false }, 0),
        PlaylistAction::Advance { record_success: false }
    );
    assert_eq!(m.step(PlaylistEvent::NextPrepared { found: true }, 0), PlaylistAction::StartNext);
    assert_eq!(
        m.step(PlaylistEvent::EndFile("eof".into()), 0),
        PlaylistAction::Advance { record_success: true }
    );
    assert_eq!(m.step(PlaylistEvent::NextPrepared { found: false }, 0), PlaylistAction::QuitPlayer);
    assert_eq!(
        m.step(PlaylistEvent::QuitFinished { success: true }, 0),
        PlaylistAction::Finish { record_success: false, outcome: PlaylistOutcome::Completed }
    );
}

#[test]
fn playlist_where_nothing_played_reports_all_failed() {
    let mut m = PlaylistMonitor::new();
    m.step(PlaylistEvent::EndFile("error".into()), 0);
    m.step(PlaylistEvent::SwitchFinished { switched: false }, 0);
    m.step(PlaylistEvent::NextPrepared { found: false }, 0);
    assert_eq!(
        m.step(PlaylistEvent::QuitFinished { success: true }, 0),
        PlaylistAction::Finish { record_success: false, outcome: PlaylistOutcome::AllFailed }
    );
    assert_eq!(
        PlaylistMonitor::new().step(PlaylistEvent::ChildExited { success: false }, 0),
        PlaylistAction::Finish { record_success: false, outcome: PlaylistOutcome::ExitFailed }
    );
}
