use bilibili_tui::navigation::{PreviousPage, RequestTracker};

#[test]
fn request_tracking_latest_wins_per_key() {
    let mut app = RequestTracker::new();
    let first = app.next_request_id("search");
    let second = app.next_request_id("search");

    assert!(!app.is_latest_request("search", first));
    assert!(app.is_latest_request("search", second));
}

#[test]
fn request_tracking_isolated_by_key() {
    let mut app = RequestTracker::new();
    let search_id = app.next_request_id("search");
    let home_id = app.next_request_id("home");

    assert!(app.is_latest_request("search", search_id));
    assert!(app.is_latest_request("home", home_id));
    assert!(!app.is_latest_request("home", search_id));
}

#[test]
fn request_ids_count_up_from_one() {
    let mut tracker = RequestTracker::new();
    assert!(!tracker.is_latest_request("live", 0));
    assert_eq!(tracker.next_request_id("live"), 1);
    assert_eq!(tracker.next_request_id("home"), 2);
    assert_eq!(tracker.next_request_id("live"), 3);
    let back = PreviousPage::VideoDetail { bvid: "BV1".into(), aid: 1 };
    assert!(matches!(back, PreviousPage::VideoDetail { aid: 1, .. }));
}
