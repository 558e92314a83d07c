use bilibili_tui::proxy::{
    cached_span, head_complete, is_media_status, parse_proxy_request, partial_content_head, plan_request, relayed_head,
    ProxyPlan, ProxyRoute,
};

#[test]
fn request_heads_end_with_a_blank_line() {
    assert!(head_complete(b"GET / HTTP/1.1\r\nHost: x\r\n\r\n"));
    assert!(!head_complete(b"GET / HTTP/1.1\r\nHost: x\r\n"));
    assert!(!head_complete(b"\r\n"));
}

#[test]
fn reads_method_path_and_range() {
    let r = parse_proxy_request("GET /video?generation=2 HTTP/1.1\r\nHost: 127.0.0.1\r\nRANGE:  bytes=0-99 \r\n\r\n").unwrap();
    assert_eq!(r.method, "GET");
    assert_eq!(r.path, "/video?generation=2");
    assert_eq!(r.range.as_deref(), Some("bytes=0-99"));
    let bare = parse_proxy_request("HEAD").unwrap();
    assert_eq!((bare.method.as_str(), bare.path.as_str(), bare.range), ("HEAD", "/", None));
    assert!(parse_proxy_request("").is_none());
}

#[test]
fn plans_follow_method_route_and_candidates() {
    let get = |line: &str| parse_proxy_request(line).unwrap();
    assert_eq!(plan_request(&get("POST /video HTTP/1.1"), 0, 3, 0, 1), ProxyPlan::NotAllowed);
    assert_eq!(
        plan_request(&get("GET /video?generation=2 HTTP/1.1"), 1, 3, 0, 1),
        ProxyPlan::Serve { route: ProxyRoute::Video, index: 2, head_only: false }
    );
    assert_eq!(
        plan_request(&get("HEAD /video?generation=0 HTTP/1.1"), 1, 3, 0, 1),
        ProxyPlan::Serve { route: ProxyRoute::Video, index: 1, head_only: true }
    );
    assert_eq!(plan_request(&get("GET /video?generation=5 HTTP/1.1"), 1, 3, 0, 1), ProxyPlan::NotFound);
    assert_eq!(
        plan_request(&get("GET /audio HTTP/1.1"), 0, 3, 0, 1),
        ProxyPlan::Serve { route: ProxyRoute::Audio, index: 0, head_only: false }
    );
    assert_eq!(plan_request(&get("GET /audio HTTP/1.1"), 0, 3, 1, 1), ProxyPlan::NotFound);
    assert_eq!(plan_request(&get("GET /other HTTP/1.1"), 0, 3, 0, 1), ProxyPlan::NotFound);
}

#[test]
fn cached_spans_and_heads() {
    assert_eq!(cached_span(10, Some(19), 100), Some((10, 19)));
    assert_eq!(cached_span(10, None, 100), Some((10, 99)));
    assert_eq!(cached_span(10, Some(100), 100), None);
    assert_eq!(cached_span(0, None, 0), None);
    assert_eq!(
        partial_content_head("audio/mp4", 0, 99, 1000),
        "HTTP/1.1 206 Partial Content\r\nConnection: close\r\nContent-Type: audio/mp4\r\nContent-Length: 100\r\nContent-Range: bytes 0-99/1000\r\nAccept-Ranges: bytes\r\n\r\n"
    );
    assert_eq!(
        relayed_head(200, "OK", &vec![("content-length".to_string(), "5".to_string())]),
        "HTTP/1.1 200 OK\r\nConnection: close\r\ncontent-length: 5\r\nAccept-Ranges: bytes\r\n\r\n"
    );
    assert!(is_media_status(206) && is_media_status(200) && !is_media_status(404));
}

use bilibili_tui::proxy::{cacheable_audio_length, VideoCdnCursor};

#[test]
fn accepts_bounded_audio_when_origin_ignores_range() {
    assert_eq!(cacheable_audio_length(200, None, Some(1024)), Some(1024));
    assert_eq!(cacheable_audio_length(200, None, Some(257 * 1024 * 1024)), None);
    assert!(!is_media_status(403));
}

#[test]
fn partial_audio_is_sized_by_its_content_range() {
    assert_eq!(cacheable_audio_length(206, Some("bytes 0-99/5000"), Some(100)), Some(5000));
    assert_eq!(cacheable_audio_length(206, Some("bytes */5000"), Some(100)), None);
    assert_eq!(cacheable_audio_length(206, None, Some(100)), None);
    assert_eq!(cacheable_audio_length(200, None, Some(0)), None);
    assert_eq!(cacheable_audio_length(404, None, Some(10)), None);
}

#[test]
fn the_video_cursor_only_moves_forward() {
    let mut cursor = VideoCdnCursor { index: 0, count: 3, video_url: "http://127.0.0.1:9/video?generation=0".into() };
    assert_eq!(cursor.next_video_cdn(), Some((1, "http://127.0.0.1:9/video?generation=1".to_string())));
    assert_eq!(cursor.video_cdn(3), None);
    assert!(cursor.commit_video_cdn(2));
    assert_eq!(cursor.video_url, "http://127.0.0.1:9/video?generation=2");
    assert!(!cursor.commit_video_cdn(1));
    assert!(!cursor.commit_video_cdn(3));
    assert_eq!(cursor.index, 2);
    assert_eq!(cursor.next_video_cdn(), None);
    let request = parse_proxy_request(&format!("GET {} HTTP/1.1\r\n\r\n", "/video?generation=2")).unwrap();
    assert_eq!(
        plan_request(&request, 0, 3, 0, 0),
        ProxyPlan::Serve { route: ProxyRoute::Video, index: 2, head_only: false }
    );
}

use bilibili_tui::proxy::{backup_prefix_total, AudioBody, PrefixBuffer, BACKUP_PREFIX_BYTES};

#[test]
fn backup_prefixes_need_a_range_from_zero() {
    assert_eq!(backup_prefix_total(206, Some("bytes 0-1048575/5000000")), Some(5000000));
    assert_eq!(backup_prefix_total(206, Some("bytes 10-20/100")), None);
    assert_eq!(backup_prefix_total(206, Some("bytes 0-100/100")), None);
    assert_eq!(backup_prefix_total(206, None), None);
    assert_eq!(backup_prefix_total(200, Some("bytes 0-99/100")), None);
    assert_eq!(BACKUP_PREFIX_BYTES, 1024 * 1024);
}

#[test]
fn prefix_buffers_stop_at_their_limit() {
    let mut p = PrefixBuffer::new(5);
    assert!(!p.push(b"abc"));
    assert!(p.push(b"defg"));
    assert_eq!(p.bytes().as_slice(), b"abcde");
    assert!(p.push(b"h"));
    assert_eq!(p.bytes().as_slice(), b"abcde");
}

#[test]
fn audio_bodies_are_kept_whole_or_not_at_all() {
    let mut a = AudioBody::new(4);
    assert!(a.push(b"ab"));
    assert!(a.push(b"cd"));
    assert_eq!(a.complete(), Some(b"abcd".to_vec()));
    let mut short = AudioBody::new(4);
    assert!(short.push(b"abc"));
    assert_eq!(short.complete(), None);
    let mut long = AudioBody::new(4);
    assert!(long.push(b"abc"));
    assert!(!long.push(b"de"));
    assert_eq!(long.complete(), None);
}

use bilibili_tui::proxy::{relayed_headers, FetchAction, UpstreamFailover};

fn headers(v: &[(&str, &str)]) -> Vec<(String, String)> {
    v.iter().map(|(a, b)| (a.to_string(), b.to_string())).collect()
}

#[test]
fn only_length_range_and_type_are_relayed() {
    let h = headers(&[
        ("Content-Type", "video/mp4"),
        ("Set-Cookie", "x=1"),
        ("content-range", "bytes 0-9/10"),
        ("CONTENT-LENGTH", "10"),
        ("Server", "cdn"),
    ]);
    assert_eq!(
        relayed_headers(&h),
        headers(&[("Content-Type", "video/mp4"), ("content-range", "bytes 0-9/10"), ("CONTENT-LENGTH", "10")])
    );
}

#[test]
fn upstream_failover_tries_later_candidates_in_order() {
    let (mut f, action) = UpstreamFailover::start(1, 4);
    assert_eq!(action, FetchAction::Fetch(1));
    assert_eq!(f.step(false), (true, FetchAction::Fetch(2)));
    assert_eq!(f.step(false), (false, FetchAction::Fetch(3)));
    assert_eq!(f.step(true), (false, FetchAction::Relay(Some(3))));
    let (mut g, _) = UpstreamFailover::start(0, 1);
    assert_eq!(g.step(false), (true, FetchAction::Fail));
    let (mut h, _) = UpstreamFailover::start(2, 3);
    assert_eq!(h.step(true), (false, FetchAction::Relay(None)));
}
