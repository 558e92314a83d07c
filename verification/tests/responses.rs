use bilibili_tui::api::client::ApiResponse;
use bilibili_tui::api::live::{
    LiveCodec, LiveFormat, LivePlayInfoData, LivePlayUrl, LivePlayUrlInfo, LiveStream, LiveUrlInfo,
};
use bilibili_tui::api::responses::{
    accept_data, accept_optional, accept_response, best_quality_request, best_stream_urls, buvid3, data_list,
    default_live_stream_urls, episode_play_payload, live_answer, popular_list, up_video_list, up_videos_summary,
    weekly_issue_number,
    Endpoint, LiveAnswer,
};
use bilibili_tui::json::parse_json;

fn resp<T>(code: i32, message: &str, data: Option<T>) -> ApiResponse<T> {
    ApiResponse { code, message: message.to_string(), ttl: None, data }
}

#[test]
fn endpoint_answers_need_code_zero_and_data() {
    assert_eq!(accept_data(resp(0, "0", Some(7)), Endpoint::SpaceInfo), Ok(7));
    assert_eq!(
        accept_data(resp::<i32>(-404, "啥都木有", None), Endpoint::SpaceVideos).unwrap_err(),
        "space videos API error -404: 啥都木有"
    );
    assert_eq!(
        accept_data(resp::<i32>(0, "0", None), Endpoint::LivePlay).unwrap_err(),
        "live play response has no data"
    );
    assert_eq!(accept_optional(resp::<i32>(0, "0", None), Endpoint::FavoriteFolders), Ok(None));
    assert_eq!(
        accept_optional(resp::<i32>(11, "busy", None), Endpoint::FavoriteFolders).unwrap_err(),
        "favorite folders API error 11: busy"
    );
    assert_eq!(Endpoint::PlayUrl.label(), "playurl");
    assert_eq!(Endpoint::LiveHomepage.label(), "live homepage");
}

#[test]
fn refused_answers_become_api_errors() {
    let ok = accept_response(resp(0, "0", Some(1))).unwrap();
    assert_eq!(ok.data, Some(1));
    let err = accept_response(resp::<i32>(-101, "账号未登录", None)).unwrap_err();
    assert_eq!(err.code, -101);
    assert_eq!(err.describe(), "API error (-101): 账号未登录");
}

#[test]
fn live_answers_retry_once_on_signature_errors() {
    assert!(matches!(live_answer(1, resp(0, "0", Some(5))), LiveAnswer::Data(5)));
    assert!(matches!(live_answer(1, resp::<i32>(-352, "风控", None)), LiveAnswer::RefreshKeys));
    match live_answer(2, resp::<i32>(-352, "风控", None)) {
        LiveAnswer::Fail(e) => assert_eq!(e, "API错误 -352: 风控"),
        _ => panic!("a second refusal is an error"),
    }
    match live_answer(1, resp::<i32>(0, "0", None)) {
        LiveAnswer::Fail(e) => assert_eq!(e, "响应无数据"),
        _ => panic!("an answer without data is an error"),
    }
}

#[test]
fn uploader_videos_are_read_with_defaults_and_skips() {
    let value = parse_json(
        r#"{"code":0,"data":{"list":{"vlist":[
            {"bvid":"BV1","aid":1,"title":"one","author":"up","mid":9,"play":5,"length":"01:00","pic":"//i.test/a.jpg","video_review":2,"created":100},
            {"bvid":"BV2","aid":2,"title":"no author","mid":9},
            {"bvid":"BV3","aid":3,"title":"three","author":"up","mid":9}
        ]},"page":{"pn":2,"count":31}}}"#,
    )
    .unwrap();
    let list = up_video_list(&value).unwrap();
    assert_eq!(list.vlist.len(), 2);
    assert_eq!(list.vlist[0].bvid, "BV1");
    assert_eq!(list.vlist[0].play, 5);
    assert_eq!(list.vlist[0].cover_url(), "https://i.test/a.jpg");
    assert_eq!(list.vlist[1].bvid, "BV3");
    assert_eq!(list.vlist[1].length, "--:--");
    assert_eq!(list.vlist[1].pic, "");
    assert_eq!(list.vlist[1].play, 0);
    assert_eq!(list.vlist[1].created, 0);
    assert_eq!((list.page.pn, list.page.ps, list.page.count), (2, 30, 31));
}

#[test]
fn uploader_video_errors() {
    let refused = parse_json(r#"{"code":-799,"message":"请求过于频繁"}"#).unwrap();
    assert_eq!(up_video_list(&refused).err().unwrap(), "API error (-799): 请求过于频繁");
    let no_code = parse_json(r#"{"data":{}}"#).unwrap();
    assert_eq!(up_video_list(&no_code).err().unwrap(), "API error (-1): unknown error");
    let no_data = parse_json(r#"{"code":0}"#).unwrap();
    assert_eq!(up_video_list(&no_data).err().unwrap(), "API 返回缺少 data 字段");
    let no_page = parse_json(r#"{"code":0,"data":{"list":{"vlist":[]}}}"#).unwrap();
    assert_eq!(up_video_list(&no_page).err().unwrap(), "API 返回缺少 page 字段");
    let empty = parse_json(r#"{"code":0,"data":{"page":{}}}"#).unwrap();
    let list = up_video_list(&empty).unwrap();
    assert!(list.vlist.is_empty());
    assert_eq!((list.page.pn, list.page.ps, list.page.count), (1, 30, 0));
}

#[test]
fn popular_feed_codes_and_lists() {
    let ok = parse_json(r#"{"data":{"list":[{"id":1},{"id":2}]}}"#).unwrap();
    assert_eq!(popular_list(&ok).unwrap().unwrap().len(), 2);
    let empty = parse_json(r#"{"code":0,"data":{}}"#).unwrap();
    assert!(popular_list(&empty).unwrap().is_none());
    let refused = parse_json(r#"{"code":-400}"#).unwrap();
    assert_eq!(popular_list(&refused).unwrap_err(), "Popular API error -400: unknown error");
}

#[test]
fn weekly_issue_is_the_first_listed() {
    let data = parse_json(r#"{"list":[{"number":271},{"number":270}]}"#).unwrap();
    assert_eq!(weekly_issue_number(Some(&data)), Ok(271));
    let empty = parse_json(r#"{"list":[]}"#).unwrap();
    assert_eq!(weekly_issue_number(Some(&empty)).unwrap_err(), "每周必看期数为空");
    assert_eq!(weekly_issue_number(None).unwrap_err(), "每周必看期数为空");
    assert!(data_list(None).is_none());
    assert_eq!(data_list(Some(&data)).unwrap().len(), 2);
}

#[test]
fn browser_id_is_read_from_b3() {
    let data = parse_json(r#"{"b_3":"ABC-infoc","b_4":"x"}"#).unwrap();
    assert_eq!(buvid3(Some(&data)).unwrap(), "ABC-infoc");
    let other = parse_json(r#"{"b_4":"x"}"#).unwrap();
    assert_eq!(buvid3(Some(&other)).unwrap_err(), "buvid3 响应为空");
    assert_eq!(buvid3(None).unwrap_err(), "buvid3 响应为空");
}

#[test]
fn episode_play_data_is_unwrapped() {
    let value = parse_json(
        r#"{"code":0,"result":{"video_info":{"dash":{"video":[{"id":80}]}},"play_view_business_info":{}}}"#,
    )
    .unwrap();
    let payload = episode_play_payload(&value).unwrap();
    assert!(payload.get("dash").is_some());
    let raw = parse_json(r#"{"raw":{"data":{"code":0,"video_info":{"dash":1}}}}"#).unwrap();
    assert_eq!(episode_play_payload(&raw).unwrap().get("dash").unwrap().as_i64(), Some(1));
    let bare = parse_json(r#"{"dash":2}"#).unwrap();
    assert_eq!(episode_play_payload(&bare).unwrap().get("dash").unwrap().as_i64(), Some(2));
    let refused = parse_json(r#"{"code":-10403,"message":"大会员专享"}"#).unwrap();
    assert_eq!(episode_play_payload(&refused).unwrap_err(), "API error (-10403): 大会员专享");
    let inner = parse_json(r#"{"code":0,"data":{"code":87,"message":"no"}}"#).unwrap();
    assert_eq!(episode_play_payload(&inner).unwrap_err(), "API error (87): no");
}

fn codec(qn: i64, accept: Vec<i64>, host: &str) -> LiveCodec {
    LiveCodec {
        codec_name: "avc".to_string(),
        current_qn: qn,
        accept_qn: accept,
        base_url: "/live.flv".to_string(),
        url_info: vec![LiveUrlInfo { host: host.to_string(), extra: "?t=1".to_string() }],
    }
}

fn play_info(live_status: i32, codecs: Vec<LiveCodec>) -> LivePlayInfoData {
    LivePlayInfoData {
        live_status,
        playurl_info: Some(LivePlayUrlInfo {
            playurl: LivePlayUrl {
                stream: vec![LiveStream {
                    protocol_name: "http_stream".to_string(),
                    format: vec![LiveFormat { format_name: "flv".to_string(), codec: codecs }],
                }],
            },
        }),
    }
}

#[test]
fn best_live_stream_asks_again_at_the_highest_quality() {
    let offline = play_info(0, vec![]);
    assert_eq!(best_quality_request(&offline).unwrap_err(), "直播间当前未开播");
    let initial = play_info(1, vec![codec(150, vec![10000, 400, 150], "https://a")]);
    assert_eq!(best_quality_request(&initial), Ok(Some(10000)));
    let best = play_info(1, vec![codec(10000, vec![10000, 400, 150], "https://b")]);
    assert_eq!(best_stream_urls(&initial, Some(&best)).unwrap(), vec!["https://b/live.flv?t=1".to_string()]);
    assert_eq!(best_stream_urls(&initial, None).unwrap(), vec!["https://a/live.flv?t=1".to_string()]);
    let nothing = play_info(1, vec![]);
    assert_eq!(best_quality_request(&nothing), Ok(None));
    assert_eq!(best_stream_urls(&nothing, None).unwrap_err(), "最高画质没有可用播放地址");
}

#[test]
fn default_live_stream_keeps_the_given_order() {
    let info = play_info(1, vec![codec(150, vec![150], "https://a"), codec(150, vec![150], "https://b")]);
    assert_eq!(
        default_live_stream_urls(&info).unwrap(),
        vec!["https://a/live.flv?t=1".to_string(), "https://b/live.flv?t=1".to_string()]
    );
    assert_eq!(default_live_stream_urls(&play_info(2, vec![])).unwrap_err(), "直播间当前未开播");
    assert_eq!(default_live_stream_urls(&play_info(1, vec![])).unwrap_err(), "直播默认播放地址为空");
}

#[test]
fn uploader_pages_know_whether_more_follow() {
    let value = parse_json(
        r#"{"code":0,"data":{"list":{"vlist":[{"bvid":"BV1","aid":1,"title":"t","author":"某UP","mid":9}]},"page":{"pn":1,"ps":30,"count":31}}}"#,
    )
    .unwrap();
    let list = up_video_list(&value).unwrap();
    assert_eq!(up_videos_summary(&list, 1), (true, "某UP".to_string()));
    assert_eq!(up_videos_summary(&list, 2), (false, "某UP".to_string()));
    let empty = up_video_list(&parse_json(r#"{"code":0,"data":{"page":{"count":0}}}"#).unwrap()).unwrap();
    assert_eq!(up_videos_summary(&empty, 1), (false, String::new()));
}
