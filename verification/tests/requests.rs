use bilibili_tui::api::client::ApiResponse;
use bilibili_tui::api::requests::{
    add_comment_form, added_comment, comment_answer, comment_form, dynamic_feed_url, history_url, popular_url,
    CommentAction,
};

fn pairs(v: &[(&str, &str)]) -> Vec<(String, String)> {
    v.iter().map(|(a, b)| (a.to_string(), b.to_string())).collect()
}

#[test]
fn dynamic_feed_urls_carry_the_given_parameters() {
    assert_eq!(
        dynamic_feed_url(None, None, None),
        "https://api.bilibili.com/x/polymer/web-dynamic/v1/feed/all"
    );
    assert_eq!(
        dynamic_feed_url(Some("9001"), Some("video"), Some(42)),
        "https://api.bilibili.com/x/polymer/web-dynamic/v1/feed/all?type=video&offset=9001&host_mid=42"
    );
    assert_eq!(
        dynamic_feed_url(Some("9001"), None, None),
        "https://api.bilibili.com/x/polymer/web-dynamic/v1/feed/all?offset=9001"
    );
}

#[test]
fn history_urls_always_ask_for_twenty() {
    assert_eq!(history_url(None, None, None), "https://api.bilibili.com/x/web-interface/history/cursor?ps=20");
    assert_eq!(
        history_url(Some(11), Some(1700000000), Some("archive")),
        "https://api.bilibili.com/x/web-interface/history/cursor?ps=20&max=11&view_at=1700000000&business=archive"
    );
}

#[test]
fn popular_pages_start_at_one() {
    assert_eq!(popular_url(2, 20), "https://api.bilibili.com/x/web-interface/popular?pn=2&ps=20");
    assert_eq!(popular_url(0, -5), "https://api.bilibili.com/x/web-interface/popular?pn=1&ps=1");
}

#[test]
fn comment_forms() {
    assert_eq!(
        add_comment_form(100, 1, "hi", None, None),
        pairs(&[("type", "1"), ("oid", "100"), ("message", "hi"), ("plat", "1")])
    );
    assert_eq!(
        add_comment_form(100, 17, "re", Some(5), Some(6)),
        pairs(&[("type", "17"), ("oid", "100"), ("message", "re"), ("plat", "1"), ("root", "5"), ("parent", "6")])
    );
    assert_eq!(
        comment_form(100, 7, 1, Some(true)),
        pairs(&[("type", "1"), ("oid", "100"), ("rpid", "7"), ("action", "1")])
    );
    assert_eq!(
        comment_form(100, 7, 1, Some(false)),
        pairs(&[("type", "1"), ("oid", "100"), ("rpid", "7"), ("action", "0")])
    );
    assert_eq!(comment_form(100, 7, 11, None), pairs(&[("type", "11"), ("oid", "100"), ("rpid", "7")]));
}

fn resp<T>(code: i32, message: &str, data: Option<T>) -> ApiResponse<T> {
    ApiResponse { code, message: message.to_string(), ttl: None, data }
}

#[test]
fn comment_answers() {
    assert_eq!(comment_answer(CommentAction::Like, resp(0, "0", Some(1))), Ok(Some(1)));
    assert_eq!(
        comment_answer(CommentAction::Undislike, resp::<i32>(12022, "已经删除", None)).unwrap_err(),
        "Failed to un-dislike comment: 已经删除"
    );
    assert_eq!(
        comment_answer(CommentAction::Delete, resp::<i32>(-403, "权限不足", None)).unwrap_err(),
        "Failed to delete comment: 权限不足"
    );
    assert_eq!(CommentAction::Unlike.verb(), "unlike");
    assert_eq!(added_comment(resp(0, "0", Some(3))), Ok(3));
    assert_eq!(added_comment(resp::<i32>(0, "0", None)).unwrap_err(), "No data in add comment response");
    assert_eq!(added_comment(resp::<i32>(12015, "需要验证码", None)).unwrap_err(), "Failed to add comment: 需要验证码");
}
