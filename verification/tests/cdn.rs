use bilibili_tui::api::cdn::{
    merge_history, record_cdn_result, select_audio_stream, select_video_stream, CdnHistory, CdnLedger, Dash,
    DashStream, Dolby, Flac, NoAudioStream, NoStreamWithinCap, PlayUrlData,
};

fn stream(id: i64, bandwidth: i64) -> DashStream {
    DashStream {
        id,
        bandwidth,
        codecid: 7,
        base_url: None,
        base_url_camel: None,
        backup_url: None,
        backup_url_camel: None,
    }
}

fn data(video: Vec<DashStream>, audio: Vec<DashStream>) -> PlayUrlData {
    PlayUrlData { dash: Dash { video, audio, dolby: None, flac: None } }
}

#[test]
fn video_stream_selection_respects_quality_cap() {
    let data = data(vec![stream(120, 300), stream(80, 200), stream(64, 100)], Vec::new());
    assert_eq!(select_video_stream(&data, 127).unwrap().id, 120);
    assert_eq!(select_video_stream(&data, 80).unwrap().id, 80);
    assert_eq!(select_video_stream(&data, 64).unwrap().id, 64);
    assert_eq!(select_video_stream(&data, 16).unwrap_err(), NoStreamWithinCap);
}

#[test]
fn equal_quality_prefers_the_larger_bandwidth() {
    let data = data(vec![stream(80, 100), stream(80, 300), stream(80, 200)], Vec::new());
    assert_eq!(select_video_stream(&data, 80).unwrap().bandwidth, 300);
}

#[test]
fn audio_takes_the_largest_bandwidth_among_all_sources() {
    let mut d = data(Vec::new(), vec![stream(30280, 10)]);
    assert_eq!(select_audio_stream(&d).unwrap().id, 30280);
    d.dash.dolby = Some(Dolby { audio: Some(vec![stream(30250, 50)]) });
    d.dash.flac = Some(Flac { audio: Some(stream(30251, 40)) });
    assert_eq!(select_audio_stream(&d).unwrap().id, 30250);
    assert_eq!(select_audio_stream(&data(Vec::new(), Vec::new())).unwrap_err(), NoAudioStream);
}

#[test]
fn urls_come_from_either_spelling() {
    let mut s = stream(80, 1);
    assert_eq!(s.primary_url(), None);
    s.base_url_camel = Some("https://a/v".into());
    s.backup_url_camel = Some(vec!["https://b/v".into()]);
    assert_eq!(s.primary_url(), Some("https://a/v"));
    s.backup_url = Some(vec!["https://c/v".into()]);
    assert_eq!(s.backup_urls(), vec!["https://c/v", "https://b/v"]);
}

#[test]
fn playback_outcomes_are_counted_per_host() {
    let mut ledger = CdnLedger::new();
    record_cdn_result(&mut ledger, "a.example", false);
    record_cdn_result(&mut ledger, "a.example", true);
    let a = ledger.get("a.example");
    assert_eq!((a.attempts, a.corruptions), (2, 1));
    assert_eq!(ledger.get("b.example"), CdnHistory::empty());
}

#[test]
fn merging_adds_only_what_this_process_counted() {
    let mut base = CdnLedger::new();
    record_cdn_result(&mut base, "h", false);
    let mut values = CdnLedger::new();
    for _ in 0..3 {
        record_cdn_result(&mut values, "h", false);
    }
    let mut disk = CdnLedger::new();
    for _ in 0..5 {
        record_cdn_result(&mut disk, "h", true);
    }
    merge_history(&base, &values, &mut disk);
    let merged = disk.get("h");
    assert_eq!(merged.attempts, 7);
    assert_eq!(merged.corruptions, 5);
}



use bilibili_tui::api::cdn::{
    probe_is_recent, record_probe_failure, record_probe_sample, record_rank, F64Bits, StreamKind, SCORE_TTL_SECS,
};

#[test]
fn probe_records_count_and_stamp() {
    let mut h = CdnHistory::empty();
    assert!(!probe_is_recent(&h, 10));
    record_probe_sample(&mut h, F64Bits(1), F64Bits(2), 1000);
    assert_eq!(h.probe_samples, 1);
    assert!(h.last_probe_ok);
    assert_eq!((h.latency_ms, h.throughput_bps, h.last_probed_at), (F64Bits(1), F64Bits(2), 1000));
    assert!(probe_is_recent(&h, 1000));
    assert!(probe_is_recent(&h, 1000 + SCORE_TTL_SECS - 1));
    assert!(!probe_is_recent(&h, 1000 + SCORE_TTL_SECS));
    assert!(!probe_is_recent(&h, 999));
    record_probe_failure(&mut h, 2000);
    assert_eq!((h.probe_failures, h.last_probe_ok, h.last_probed_at), (1, false, 2000));
    record_rank(&mut h, StreamKind::Audio, F64Bits(3), F64Bits(4), 320000);
    assert!(h.last_probe_ok);
    assert_eq!((h.audio_score, h.audio_speed_ratio, h.audio_bandwidth), (Some(F64Bits(3)), Some(F64Bits(4)), Some(320000)));
    assert_eq!(h.video_score, None);
    let mut fresh = CdnHistory::empty();
    record_rank(&mut fresh, StreamKind::Video, F64Bits(5), F64Bits(6), 1);
    assert!(!fresh.last_probe_ok);
    assert_eq!(fresh.video_bandwidth, Some(1));
    fresh.probe_failures = u64::MAX;
    record_probe_failure(&mut fresh, 1);
    assert_eq!(fresh.probe_failures, u64::MAX);
}
