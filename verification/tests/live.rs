use bilibili_tui::api::live::{LiveHomeData, LiveHomeModule, LiveModuleInfo, LiveRoom};

fn room(roomid: i64) -> LiveRoom {
    LiveRoom {
        roomid,
        uid: roomid,
        title: roomid.to_string(),
        uname: String::new(),
        face: String::new(),
        cover: String::new(),
        keyframe: String::new(),
        online: 0,
        area_v2_name: String::new(),
        area_v2_parent_name: String::new(),
        watched_show: None,
    }
}

#[test]
fn followed_rooms_are_first_and_duplicates_are_removed() {
    let data = LiveHomeData {
        room_list: vec![
            LiveHomeModule {
                module_info: LiveModuleInfo { title: "推荐直播".into(), module_type: 6 },
                list: vec![room(2), room(1)],
            },
            LiveHomeModule {
                module_info: LiveModuleInfo { title: "我的关注".into(), module_type: 8 },
                list: vec![room(1)],
            },
        ],
    };
    assert_eq!(
        data.followed_then_recommended().into_iter().map(|room| room.roomid).collect::<Vec<_>>(),
        [1, 2]
    );
}

#[test]
fn followed_module_is_found_by_title_too_and_repeats_are_dropped() {
    let data = LiveHomeData {
        room_list: vec![
            LiveHomeModule {
                module_info: LiveModuleInfo { title: "我的关注".into(), module_type: 0 },
                list: vec![room(5), room(5), room(3)],
            },
            LiveHomeModule {
                module_info: LiveModuleInfo { title: "推荐直播".into(), module_type: 6 },
                list: vec![room(3), room(4)],
            },
        ],
    };
    assert_eq!(
        data.followed_then_recommended().into_iter().map(|room| room.roomid).collect::<Vec<_>>(),
        [5, 3, 4]
    );
}

use bilibili_tui::api::live::{
    codec_rank, protocol_rank, LiveCodec, LiveFormat, LivePlayInfoData, LivePlayUrl, LivePlayUrlInfo, LiveStream,
    LiveUrlInfo,
};

fn stream(protocol: &str, format: &str, codec: &str, current: i64, accept: &[i64], base: &str, host: &str, extra: &str) -> LiveStream {
    LiveStream {
        protocol_name: protocol.into(),
        format: vec![LiveFormat {
            format_name: format.into(),
            codec: vec![LiveCodec {
                codec_name: codec.into(),
                current_qn: current,
                accept_qn: accept.to_vec(),
                base_url: base.into(),
                url_info: vec![LiveUrlInfo { host: host.into(), extra: extra.into() }],
            }],
        }],
    }
}

fn play_info(streams: Vec<LiveStream>) -> LivePlayInfoData {
    LivePlayInfoData {
        live_status: 1,
        playurl_info: Some(LivePlayUrlInfo { playurl: LivePlayUrl { stream: streams } }),
    }
}

#[test]
fn live_play_info_uses_highest_quality_and_prefers_avc() {
    let data = play_info(vec![stream(
        "http_hls", "fmp4", "avc", 20000, &[10000, 20000], "/best?", "https://cdn.example", "token=1",
    )]);
    assert_eq!(data.highest_available_quality(), Some(20000));
    assert_eq!(data.stream_urls(), ["https://cdn.example/best?token=1"]);
}

#[test]
fn live_play_info_prefers_continuous_flv_for_mpv() {
    let data = play_info(vec![
        stream("http_hls", "fmp4", "avc", 10000, &[10000], "/hls", "https://hls", ""),
        stream("http_stream", "flv", "avc", 10000, &[10000], "/live.flv", "https://flv", ""),
    ]);
    assert_eq!(data.stream_urls()[0], "https://flv/live.flv");
}

#[test]
fn live_play_info_falls_back_to_granted_quality_when_requested_quality_is_unavailable() {
    let data = play_info(vec![stream(
        "http_hls", "fmp4", "avc", 400, &[10000, 400], "/granted?", "https://cdn.example", "token=2",
    )]);
    assert_eq!(data.highest_available_quality(), Some(10000));
    assert_eq!(data.stream_urls(), ["https://cdn.example/granted?token=2"]);
}

#[test]
fn default_urls_keep_the_response_order() {
    let data = play_info(vec![
        stream("http_hls", "fmp4", "hevc", 10000, &[10000], "/a", "https://one", "?x"),
        stream("http_stream", "flv", "avc", 10000, &[10000], "/b", "https://two", ""),
    ]);
    assert_eq!(data.default_stream_urls(), ["https://one/a?x", "https://two/b"]);
    let offline = LivePlayInfoData { live_status: 0, playurl_info: None };
    assert!(offline.default_stream_urls().is_empty());
    assert!(offline.stream_urls().is_empty());
    assert_eq!(offline.highest_available_quality(), None);
}

#[test]
fn ranks_of_protocols_and_codecs() {
    assert_eq!(protocol_rank("http_stream", "flv"), 0);
    assert_eq!(protocol_rank("http_hls", "fmp4"), 1);
    assert_eq!(protocol_rank("http_hls", "ts"), 2);
    assert_eq!(protocol_rank("http_stream", "ts"), 3);
    assert_eq!(codec_rank("avc"), 0);
    assert_eq!(codec_rank("hevc"), 1);
    assert_eq!(codec_rank("av1"), 2);
    assert_eq!(codec_rank("vp9"), 3);
}
