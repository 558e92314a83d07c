use bilibili_tui::api::recommend::{playable_home_videos, HomeFeed, VideoItem, VideoOwner};

fn video(id: i64, bvid: Option<&str>) -> VideoItem {
    VideoItem {
        id,
        bvid: bvid.map(String::from),
        cid: None,
        goto: "av".into(),
        uri: None,
        pic: None,
        title: None,
        duration: Some(65),
        pubdate: None,
        owner: None,
        stat: None,
    }
}

#[test]
fn only_playable_home_videos_are_kept() {
    let kept = playable_home_videos(vec![video(1, Some("BV1")), video(0, Some("BV0")), video(2, None), video(3, Some("BV3"))]);
    assert_eq!(kept.iter().map(|v| v.id).collect::<Vec<_>>(), [1, 3]);
}

#[test]
fn home_feed_labels_and_durations() {
    assert_eq!(HomeFeed::ALL.len(), 5);
    assert_eq!(HomeFeed::Weekly.label(), "每周必看");
    let mut v = video(1, Some("BV1"));
    assert_eq!(v.format_duration(), "01:05");
    assert_eq!(v.author_name(), "-");
    v.owner = Some(VideoOwner { mid: 1, name: "up".into(), face: None, follower: None });
    assert_eq!(v.author_name(), "up");
    v.duration = None;
    assert_eq!(v.format_duration(), "--:--");
}
