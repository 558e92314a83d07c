use bilibili_tui::api::history::{HistoryItem, HistoryKey, HistoryMeta};

fn record(title: &str, kid: i64, business: &str) -> HistoryItem {
    HistoryItem {
        title: title.into(),
        long_title: None,
        cover: None,
        covers: None,
        uri: None,
        history: HistoryMeta {
            oid: 0,
            epid: 0,
            bvid: None,
            page: 0,
            cid: 0,
            part: None,
            business: business.into(),
            dt: 0,
        },
        videos: 0,
        author_name: String::new(),
        author_face: None,
        author_mid: 0,
        view_at: 0,
        progress: 0,
        badge: None,
        show_title: None,
        duration: 0,
        current: None,
        total: 0,
        new_desc: None,
        is_finish: 0,
        is_fav: 0,
        kid,
        tag_name: None,
        live_status: 0,
    }
}

#[test]
fn mixed_history_records_deserialize_and_route_ids() {
    let mut video = record("video", 11, "archive");
    video.history.oid = 11;
    video.history.bvid = Some("BV1test".into());
    let mut episode = record("vip episode", 22, "pgc");
    episode.history.epid = 2201;
    episode.history.bvid = Some(String::new());
    let mut article = record("article", 33, "article");
    article.covers = Some(vec!["https://i.test/article.jpg".into()]);
    article.history.oid = 3301;
    let mut list = record("article list", 44, "article-list");
    list.history.oid = 4400;
    list.history.cid = 4401;
    let items = vec![video, episode, article, list];

    assert_eq!(items[0].get_bvid(), Some("BV1test"));
    assert_eq!(items[1].get_bvid(), None);
    assert_eq!(items[1].history.epid, 2201);
    assert_eq!(items[2].get_cover(), Some("https://i.test/article.jpg"));
    assert_eq!(items[2].article_id(), Some(3301));
    assert_eq!(items[3].article_id(), Some(4401));
    assert_eq!(items[3].history_key().unwrap().api_value(), "article-list_44");
}

#[test]
fn durations_and_progress_are_minutes_and_seconds() {
    let mut item = record("v", 1, "archive");
    assert_eq!(item.format_duration(), "--:--");
    assert_eq!(item.format_progress(), "00:00");
    item.duration = 125;
    item.progress = 3600;
    assert_eq!(item.format_duration(), "02:05");
    assert_eq!(item.format_progress(), "60:00");
}

#[test]
fn view_times_are_relative() {
    let mut item = record("v", 1, "archive");
    item.view_at = 1_000_000;
    assert_eq!(item.format_view_time_at(1_000_030), "刚刚");
    assert_eq!(item.format_view_time_at(1_000_000 + 125), "2分钟前");
    assert_eq!(item.format_view_time_at(1_000_000 + 7200), "2小时前");
    assert_eq!(item.format_view_time_at(1_000_000 + 3 * 86400), "3天前");
    assert_eq!(item.format_view_time_at(1_000_000 + 30 * 86400), "1970年");
}

#[test]
fn live_records_route_by_oid_or_uri() {
    let mut live = record("live", 5, "live");
    assert!(live.is_live());
    assert!(!live.is_selectable());
    assert!(live.history_key().is_none());
    live.uri = Some(" https://live.bilibili.com/12345?from=history ".into());
    assert_eq!(live.get_live_room_id(), Some(12345));
    live.history.oid = 99;
    assert_eq!(live.get_live_room_id(), Some(99));
    let keyed = HistoryKey { business: "archive".into(), kid: -3 };
    assert_eq!(keyed.api_value(), "archive_-3");
}
