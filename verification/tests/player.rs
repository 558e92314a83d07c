use bilibili_tui::player::{
    accept_prepared_result, generation, is_corrupt_video_log, live_retry_delay, mpv_script_name,
    ordered_playlist, ordered_playlist_with_seed, parse_content_range, parse_range, should_reload_live_reason,
    skipped_items_message, PlayOrder, PlaylistError, PlaylistItem,
};

fn item(id: i64) -> PlaylistItem {
    PlaylistItem {
        bvid: format!("BV{id}"),
        aid: id,
        cid: None,
        title: id.to_string(),
        uploader_mid: None,
        duration: None,
        page: None,
    }
}

#[test]
fn reverse_play_all_starts_at_first_reversed_item() {
    let items = vec![item(1), item(2), item(3)];
    let (items, start) = ordered_playlist(items, PlayOrder::Reverse, 2).unwrap();
    assert_eq!(items.iter().map(|item| item.aid).collect::<Vec<_>>(), [3, 2, 1]);
    assert_eq!(start, 0);
}

#[test]
fn playlist_skips_failed_items_and_selects_next_success() {
    let items = [item(1), item(2), item(3)];
    let mut failures = Vec::new();
    assert_eq!(
        accept_prepared_result::<i64>(&items[0], Err("unavailable".to_string()), &mut failures),
        None
    );
    assert_eq!(accept_prepared_result(&items[1], Ok(2), &mut failures), Some(2));
    assert_eq!(failures.len(), 1);
}

#[test]
fn playlist_reports_all_candidates_failed() {
    let items = [item(1), item(2)];
    let mut failures = Vec::new();
    for item in &items {
        assert_eq!(
            accept_prepared_result::<i64>(item, Err("blocked".to_string()), &mut failures),
            None
        );
    }
    assert_eq!(failures.len(), items.len());
}

#[test]
fn forward_play_all_preserves_web_order() {
    let items = vec![item(1), item(2), item(3)];
    let (items, start) = ordered_playlist(items, PlayOrder::Forward, 0).unwrap();
    assert_eq!(items.iter().map(|item| item.aid).collect::<Vec<_>>(), [1, 2, 3]);
    assert_eq!(start, 0);
}

#[test]
fn recognizes_corrupt_h264_diagnostics() {
    assert!(is_corrupt_video_log("h264: Invalid NAL unit size (123 > 10)"));
    assert!(is_corrupt_video_log("h264: Error splitting the input into NAL units."));
    assert!(!is_corrupt_video_log("AO: [coreaudio] 48000Hz stereo"));
}

#[test]
fn live_failover_reloads_only_stream_failures() {
    assert!(should_reload_live_reason("eof"));
    assert!(should_reload_live_reason("error"));
    assert!(should_reload_live_reason("redirect"));
    assert!(!should_reload_live_reason("stop"));
    assert!(!should_reload_live_reason("quit"));
}

#[test]
fn live_retry_backoff_is_bounded() {
    assert!(live_retry_delay(2) > live_retry_delay(1));
    assert_eq!(live_retry_delay(8), 4_000);
    assert_eq!(live_retry_delay(100), 4_000);
}

#[test]
fn live_retry_backoff_doubles_from_a_quarter_second() {
    assert_eq!(live_retry_delay(0), 250);
    assert_eq!(live_retry_delay(1), 500);
    assert_eq!(live_retry_delay(3), 2_000);
    assert_eq!(live_retry_delay(4), 4_000);
}

#[test]
fn parses_only_valid_byte_ranges() {
    assert_eq!(parse_range("bytes=10-20"), Some((10, Some(20))));
    assert_eq!(parse_range("bytes=10-"), Some((10, None)));
    assert_eq!(parse_range("items=10-20"), None);
    assert_eq!(parse_range("bytes=-20"), None);
}

#[test]
fn validates_content_range_and_generation() {
    assert_eq!(parse_content_range("bytes 0-99/1000"), Some((0, 99, 1000)));
    assert_eq!(parse_content_range("bytes */1000"), None);
    assert_eq!(generation("/video?generation=3"), Some(3));
    assert_eq!(generation("/video?x=1&generation=4"), Some(4));
}

#[test]
fn generation_needs_a_query_and_a_number() {
    assert_eq!(generation("/video"), None);
    assert_eq!(generation("/video?generation=x&generation=5"), Some(5));
    assert_eq!(generation("/video?gen=1"), None);
}

#[test]
fn playlist_order_errors() {
    assert_eq!(ordered_playlist(Vec::new(), PlayOrder::Forward, 0).unwrap_err(), PlaylistError::Empty);
    assert_eq!(
        ordered_playlist(vec![item(1)], PlayOrder::Forward, 1).unwrap_err(),
        PlaylistError::StartOutOfRange
    );
}

#[test]
fn shuffle_puts_the_chosen_item_first_and_keeps_every_item() {
    let items = vec![item(1), item(2), item(3), item(4)];
    let (shuffled, start) = ordered_playlist_with_seed(items, PlayOrder::Shuffle, 2, 12345).unwrap();
    assert_eq!(start, 0);
    assert_eq!(shuffled[0].aid, 3);
    let mut aids = shuffled.iter().map(|item| item.aid).collect::<Vec<_>>();
    aids.sort();
    assert_eq!(aids, [1, 2, 3, 4]);
}

#[test]
fn skipped_items_are_reported_in_one_line() {
    assert_eq!(skipped_items_message(&Vec::new()), None);
    let failures = vec!["BV1: a".to_string(), "BV2: b".to_string()];
    assert_eq!(
        skipped_items_message(&failures).as_deref(),
        Some("playlist skipped items: BV1: a; BV2: b")
    );
    let mut recorded = Vec::new();
    accept_prepared_result::<i64>(&item(7), Err("gone".to_string()), &mut recorded);
    assert_eq!(recorded, vec!["BV7: gone"]);
}

#[test]
fn mpv_script_names_replace_other_characters() {
    assert_eq!(mpv_script_name(Some("bilibili-tui-danmaku-1.x")), "bilibili_tui_danmaku_1_x");
    assert_eq!(mpv_script_name(None), "live_danmaku");
}

use bilibili_tui::json::parse_json;
use bilibili_tui::player::{ensure_mpv_success, live_mpv_args, vod_buffering_args, MpvError};

#[test]
fn vod_mpv_uses_normal_buffering_settings() {
    let args = vod_buffering_args();
    assert_eq!(
        args,
        [
            "--audio-buffer=0.2",
            "--vd-lavc-threads=0",
            "--cache=yes",
            "--cache-pause=yes",
            "--demuxer-lavf-o=",
            "--demuxer-lavf-probe-info=auto",
            "--demuxer-lavf-analyzeduration=0",
            "--video-latency-hacks=no",
            "--stream-buffer-size=128KiB",
        ]
    );
    assert!(!args.iter().any(|arg| arg == "--profile=low-latency"));
}

#[test]
fn live_mpv_is_idle_ipc_controlled_and_disables_global_url_logging() {
    let args = live_mpv_args("/tmp/live-test.sock");
    assert!(args.iter().any(|arg| arg == "--idle=yes"));
    assert!(args.iter().any(|arg| arg == "--keep-open=yes"));
    assert!(args.iter().any(|arg| arg == "--resume-playback=no"));
    assert!(args.iter().any(|arg| arg == "--cache-secs=3600"));
    assert!(args.iter().any(|arg| arg == "--log-file="));
    assert!(args.iter().any(|arg| arg.ends_with("/tmp/live-test.sock")));
    assert!(!args.iter().any(|arg| arg.contains("bilivideo.com")));
}

#[test]
fn mpv_replies_succeed_only_on_success() {
    assert_eq!(ensure_mpv_success(&parse_json(r#"{"error":"success","data":null}"#).unwrap()), Ok(()));
    assert_eq!(
        ensure_mpv_success(&parse_json(r#"{"error":"property unavailable"}"#).unwrap()),
        Err(MpvError::Failed("property unavailable".into()))
    );
    assert_eq!(ensure_mpv_success(&parse_json(r#"{"data":1}"#).unwrap()), Err(MpvError::NoStatus));
}

use bilibili_tui::player::{video_page_url, vod_mpv_args, ytdl_format, VodSource};

#[test]
fn video_pages_and_formats() {
    assert_eq!(video_page_url("BV1x", None), "https://www.bilibili.com/video/BV1x");
    assert_eq!(video_page_url("BV1x", Some(1)), "https://www.bilibili.com/video/BV1x");
    assert_eq!(video_page_url("BV1x", Some(3)), "https://www.bilibili.com/video/BV1x?p=3");
    assert_eq!(ytdl_format(None), "bestvideo+bestaudio/best");
    assert_eq!(ytdl_format(Some(1080)), "bestvideo[height<=1080]+bestaudio/best[height<=1080]");
}

#[test]
fn vod_command_lines_end_with_the_media() {
    let proxy = VodSource::Proxy { audio_url: "http://p/audio".into(), video_url: "http://p/video?generation=0".into() };
    let args = vod_mpv_args(Some("/tmp/c.txt"), "https://www.bilibili.com/video/BV1", "/tmp/ipc", "/tmp/s.lua", &proxy);
    assert_eq!(args[0], "--ytdl-raw-options=cookies=/tmp/c.txt");
    assert_eq!(args[1], "--force-window=immediate");
    assert_eq!(&args[2..11], vod_buffering_args().as_slice());
    assert_eq!(args[11], "--referrer=https://www.bilibili.com/video/BV1");
    assert_eq!(&args[args.len() - 3..], ["--ytdl=no", "--audio-file=http://p/audio", "http://p/video?generation=0"]);
    let direct = vod_mpv_args(None, "https://page", "/ipc", "/s", &VodSource::Ytdl { format: ytdl_format(None) });
    assert_eq!(&direct[direct.len() - 2..], ["--ytdl-format=bestvideo+bestaudio/best", "https://page"]);
    assert_eq!(direct[0], "--force-window=immediate");
}

use bilibili_tui::player::{command_reply, reply_text, switch_load_options, CommaInAudioUrl, LoadStep, LoadWatch};

#[test]
fn command_replies_skip_events_and_other_requests() {
    let event = parse_json(r#"{"event":"client-message"}"#).unwrap();
    assert_eq!(command_reply(&event, 7), None);
    let other = parse_json(r#"{"error":"success","request_id":6}"#).unwrap();
    assert_eq!(command_reply(&other, 7), None);
    let ours = parse_json(r#"{"error":"success","request_id":7}"#).unwrap();
    assert_eq!(command_reply(&ours, 7), Some(Ok(())));
    let refused = parse_json(r#"{"error":"property unavailable","request_id":7}"#).unwrap();
    assert_eq!(command_reply(&refused, 7), Some(Err(MpvError::Failed("property unavailable".to_string()))));
}

#[test]
fn loads_finish_on_reply_and_file_loaded_in_either_order() {
    let reply = parse_json(r#"{"error":"success","request_id":1}"#).unwrap();
    let loaded = parse_json(r#"{"event":"file-loaded"}"#).unwrap();
    let mut w = LoadWatch::new(1, false);
    assert_eq!(w.observe(&loaded), LoadStep::Waiting);
    assert_eq!(w.observe(&reply), LoadStep::Loaded);
    let mut w = LoadWatch::new(1, false);
    assert_eq!(w.observe(&reply), LoadStep::Waiting);
    assert_eq!(w.observe(&loaded), LoadStep::Loaded);
}

#[test]
fn live_loads_fail_on_end_file_errors() {
    let failed = parse_json(r#"{"event":"end-file","reason":"error"}"#).unwrap();
    let stopped = parse_json(r#"{"event":"end-file","reason":"stop"}"#).unwrap();
    let mut live = LoadWatch::new(2, true);
    assert_eq!(live.observe(&stopped), LoadStep::Waiting);
    assert_eq!(live.observe(&failed), LoadStep::LiveFailed);
    let mut vod = LoadWatch::new(2, false);
    assert_eq!(vod.observe(&failed), LoadStep::Waiting);
    let refused = parse_json(r#"{"error":"loading failed","request_id":2}"#).unwrap();
    assert_eq!(vod.observe(&refused), LoadStep::Refused(MpvError::Failed("loading failed".to_string())));
}

#[test]
fn reply_data_and_switch_options() {
    let path = parse_json(r#"{"data":"https://a/v.m4s","error":"success"}"#).unwrap();
    assert_eq!(reply_text(&path).as_deref(), Some("https://a/v.m4s"));
    let pos = parse_json(r#"{"data":1.5,"error":"success"}"#).unwrap();
    assert_eq!(reply_text(&pos), None);
    assert_eq!(switch_load_options("https://a/a.m4s?x=1", "12.5").unwrap(), "audio-files=https://a/a.m4s?x=1,start=12.5");
    assert_eq!(switch_load_options("https://a/a,b.m4s", "0"), Err(CommaInAudioUrl));
}

#[test]
fn mpv_ipc_ignores_events_before_its_matching_response() {
    let request_id = 5;
    let lines = [r#"{"event":"client-message"}"#, r#"{"error":"success","request_id":5}"#];
    let mut reply = None;
    for line in lines {
        let value = parse_json(line).unwrap();
        if let Some(status) = command_reply(&value, request_id) {
            reply = Some(status);
            break;
        }
    }
    assert_eq!(reply, Some(Ok(())));
}

use bilibili_tui::api::video::{VideoInfo, VideoOwner, VideoStat};
use bilibili_tui::player::{
    cid_script_opts, end_file_reason, episode_mpv_args, episode_page_url, playlist_mpv_args,
};

fn info(cid: i64, duration: Option<i64>) -> VideoInfo {
    VideoInfo {
        bvid: "BV1".into(),
        aid: 1,
        cid,
        title: "t".into(),
        desc: None,
        pic: None,
        duration,
        pubdate: None,
        owner: VideoOwner { mid: 1, name: "up".into(), face: String::new() },
        stat: VideoStat { view: 0, danmaku: 0, like: 0, coin: 0, favorite: 0, share: 0, reply: None },
        pages: None,
    }
}

#[test]
fn playlist_items_complete_their_cid_and_duration() {
    let mut it = item(1);
    assert_eq!(it.known_cid_duration(), None);
    assert_eq!(it.completed_cid_duration(&info(55, Some(300))), (55, 300));
    assert_eq!(it.completed_cid_duration(&info(55, None)), (55, 0));
    it.cid = Some(7);
    assert_eq!(it.known_cid_duration(), None);
    assert_eq!(it.completed_cid_duration(&info(55, Some(300))), (7, 300));
    it.duration = Some(60);
    assert_eq!(it.known_cid_duration(), Some((7, 60)));
}

#[test]
fn episode_and_playlist_command_lines() {
    assert_eq!(episode_page_url(123), "https://www.bilibili.com/bangumi/play/ep123");
    let page = episode_page_url(123);
    assert_eq!(
        episode_mpv_args(None, &page, &VodSource::Ytdl { format: "bv*+ba/b".into() }),
        vec![
            "--force-window=immediate".to_string(),
            "--script-opts-append=double_video_fps=yes".to_string(),
            format!("--referrer={page}"),
            format!("--http-header-fields=Referer: {page}"),
            "--ytdl-format=bv*+ba/b".to_string(),
            page.clone(),
        ]
    );
    let proxied = episode_mpv_args(
        Some("/tmp/c.txt"),
        &page,
        &VodSource::Proxy { audio_url: "http://127.0.0.1:1/audio".into(), video_url: "http://127.0.0.1:1/video".into() },
    );
    assert_eq!(proxied[0], "--ytdl-raw-options=cookies=/tmp/c.txt");
    assert_eq!(&proxied[5..], &["--ytdl=no", "--audio-file=http://127.0.0.1:1/audio", "http://127.0.0.1:1/video"]);
    assert_eq!(
        playlist_mpv_args("/tmp/p.sock"),
        vec![
            "--idle=yes",
            "--force-window=immediate",
            "--msg-level=ffmpeg=error,vd=warn",
            "--ytdl=no",
            "--script-opts-append=double_video_fps=yes",
            "--input-ipc-server=/tmp/p.sock",
        ]
    );
    assert_eq!(cid_script_opts(998), "cid=998");
}

#[test]
fn end_file_events_give_their_reason() {
    let eof = parse_json(r#"{"event":"end-file","reason":"eof"}"#).unwrap();
    assert_eq!(end_file_reason(&eof).as_deref(), Some("eof"));
    let bare = parse_json(r#"{"event":"end-file"}"#).unwrap();
    assert_eq!(end_file_reason(&bare).as_deref(), Some("unknown"));
    let other = parse_json(r#"{"event":"file-loaded"}"#).unwrap();
    assert_eq!(end_file_reason(&other), None);
}

#[test]
fn ranges_with_an_end_that_is_no_number_do_not_parse() {
    assert_eq!(parse_range("bytes=10-abc"), None);
    assert_eq!(parse_range("bytes=10-2x"), None);
}
