//! What the client takes from each answer of the API once it has arrived:
//! which codes it accepts, which members it requires, the texts of its
//! errors, and the lists it reads out of raw JSON.

use vstd::prelude::*;
use crate::api::client::{self, ApiError, ApiResponse};
use crate::api::live::{self, LivePlayInfoData};
use crate::api::video::{UpVideoItem, UpVideoListData, UpVideoPageInfo, UpVideoView};
use crate::json::{self, JsonValue};
use crate::text;

verus! {

broadcast use vstd::string::group_string_axioms;

/// The endpoints whose answers the client checks with their own error
/// texts.
#[derive(Debug, Clone, Copy, PartialEq, Eq, Structural)]
pub enum Endpoint {
    SpaceInfo,
    Relation,
    SpaceVideos,
    FavoriteFolders,
    FavoriteResources,
    WatchLater,
    CollectedFolders,
    SeasonArchives,
    LiveHomepage,
    LivePlay,
    PlayUrl,
}

pub open spec fn endpoint_label(e: Endpoint) -> Seq<char> {
    match e {
        Endpoint::SpaceInfo => "space info"@,
        Endpoint::Relation => "relation"@,
        Endpoint::SpaceVideos => "space videos"@,
        Endpoint::FavoriteFolders => "favorite folders"@,
        Endpoint::FavoriteResources => "favorite resources"@,
        Endpoint::WatchLater => "watch later"@,
        Endpoint::CollectedFolders => "collected folders"@,
        Endpoint::SeasonArchives => "season archives"@,
        Endpoint::LiveHomepage => "live homepage"@,
        Endpoint::LivePlay => "live play"@,
        Endpoint::PlayUrl => "playurl"@,
    }
}

impl Endpoint {
    /// The name the endpoint's errors give it.
    pub fn label(self) -> (res: &'static str)
        ensures
            res@ == endpoint_label(self),
    {
        match self {
            Endpoint::SpaceInfo => "space info",
            Endpoint::Relation => "relation",
            Endpoint::SpaceVideos => "space videos",
            Endpoint::FavoriteFolders => "favorite folders",
            Endpoint::FavoriteResources => "favorite resources",
            Endpoint::WatchLater => "watch later",
            Endpoint::CollectedFolders => "collected folders",
            Endpoint::SeasonArchives => "season archives",
            Endpoint::LiveHomepage => "live homepage",
            Endpoint::LivePlay => "live play",
            Endpoint::PlayUrl => "playurl",
        }
    }
}

/// `{label} API error {code}: {message}`.
pub open spec fn endpoint_error(e: Endpoint, code: int, message: Seq<char>) -> Seq<char> {
    endpoint_label(e) + " API error "@ + text::signed_decimal(code) + ": "@ + message
}

/// `{label} response has no data`.
pub open spec fn endpoint_no_data(e: Endpoint) -> Seq<char> {
    endpoint_label(e) + " response has no data"@
}

/// An answer of `endpoint`: its data, absent or not, when its code is 0.
pub fn accept_optional<T>(resp: ApiResponse<T>, endpoint: Endpoint) -> (res: Result<Option<T>, String>)
    ensures
        resp.code == 0 ==> res == Ok::<Option<T>, String>(resp.data),
        resp.code != 0 ==> (res matches Err(e) && e@ == endpoint_error(endpoint, resp.code as int, resp.message@)),
{
    if resp.code != 0 {
        let mut e = text::to_owned_string(endpoint.label());
        text::push_str(&mut e, " API error ");
        text::push_signed_decimal(&mut e, resp.code as i64);
        text::push_str(&mut e, ": ");
        text::push_str(&mut e, resp.message.as_str());
        return Err(e);
    }
    Ok(resp.data)
}

/// An answer of `endpoint` that must carry data.
pub fn accept_data<T>(resp: ApiResponse<T>, endpoint: Endpoint) -> (res: Result<T, String>)
    ensures
        resp.code != 0 ==> (res matches Err(e) && e@ == endpoint_error(endpoint, resp.code as int, resp.message@)),
        resp.code == 0 ==> match resp.data {
            Some(d) => res == Ok::<T, String>(d),
            None => (res matches Err(e) && e@ == endpoint_no_data(endpoint)),
        },
{
    match accept_optional(resp, endpoint) {
        Ok(Some(d)) => Ok(d),
        Ok(None) => {
            let mut e = text::to_owned_string(endpoint.label());
            text::push_str(&mut e, " response has no data");
            Err(e)
        },
        Err(e) => Err(e),
    }
}

/// Any answer the client reads: refused, as an `ApiError`, when its code is
/// not 0.
pub fn accept_response<T>(resp: ApiResponse<T>) -> (res: Result<ApiResponse<T>, ApiError>)
    ensures
        resp.code == 0 ==> res == Ok::<ApiResponse<T>, ApiError>(resp),
        resp.code != 0 ==> (res matches Err(e) && e.code == resp.code && e.message@ == resp.message@),
{
    if resp.code != 0 {
        let message = text::to_owned_string(resp.message.as_str());
        return Err(ApiError { code: resp.code as i64, message });
    }
    Ok(resp)
}

/// `API错误 {code}: {message}`, the error of the live danmaku endpoints.
pub open spec fn live_api_error(code: int, message: Seq<char>) -> Seq<char> {
    "API错误 "@ + text::signed_decimal(code) + ": "@ + message
}

/// What follows an answer of the live danmaku endpoints.
pub enum LiveAnswer<T> {
    /// The data.
    Data(T),
    /// Sign the request again with fresh keys and repeat it.
    RefreshKeys,
    /// Give up with this error.
    Fail(String),
}

/// The answer to attempt `attempt` (counted from 1) of a live danmaku
/// request: its data when the code is 0; one more attempt with fresh keys
/// when the first was refused for its signature; an error otherwise.
pub fn live_answer<T>(attempt: u32, resp: ApiResponse<T>) -> (res: LiveAnswer<T>)
    ensures
        resp.code == 0 ==> match resp.data {
            Some(d) => res == LiveAnswer::Data(d),
            None => (res matches LiveAnswer::Fail(e) && e@ == "响应无数据"@),
        },
        resp.code != 0 && resp.code == client::WBI_SIGNATURE_REFUSED && attempt == 1 ==> res is RefreshKeys,
        resp.code != 0 && !(resp.code == client::WBI_SIGNATURE_REFUSED && attempt == 1) ==> (res matches LiveAnswer::Fail(e)
            && e@ == live_api_error(resp.code as int, resp.message@)),
{
    if resp.code == 0 {
        return match resp.data {
            Some(d) => LiveAnswer::Data(d),
            None => LiveAnswer::Fail(text::to_owned_string("响应无数据")),
        };
    }
    if client::retry_with_fresh_keys(attempt, resp.code) {
        return LiveAnswer::RefreshKeys;
    }
    let mut e = text::to_owned_string("API错误 ");
    text::push_signed_decimal(&mut e, resp.code as i64);
    text::push_str(&mut e, ": ");
    text::push_str(&mut e, resp.message.as_str());
    LiveAnswer::Fail(e)
}

// ---------------------------------------------------------------------------
// Members read from raw JSON
// ---------------------------------------------------------------------------

/// Member `key` of `v` as a string.
pub open spec fn field_str(v: JsonValue, key: Seq<char>) -> Option<Seq<char>> {
    match json::member(v, key) {
        Some(x) => json::as_str(x),
        None => None,
    }
}

/// Member `key` of `v` as an `i64`.
pub open spec fn field_i64(v: JsonValue, key: Seq<char>) -> Option<i64> {
    match json::member(v, key) {
        Some(x) => json::as_i64(x),
        None => None,
    }
}

pub open spec fn str_or(o: Option<Seq<char>>, default: Seq<char>) -> Seq<char> {
    match o {
        Some(s) => s,
        None => default,
    }
}

pub open spec fn i64_or(o: Option<i64>, default: i64) -> i64 {
    match o {
        Some(n) => n,
        None => default,
    }
}

fn get_str<'a>(v: &'a JsonValue, key: &str) -> (res: Option<&'a str>)
    ensures
        match res {
            Some(s) => field_str(*v, key@) == Some(s@),
            None => field_str(*v, key@) is None,
        },
{
    match v.get(key) {
        Some(x) => x.as_str(),
        None => None,
    }
}

fn get_i64(v: &JsonValue, key: &str) -> (res: Option<i64>)
    ensures
        res == field_i64(*v, key@),
{
    match v.get(key) {
        Some(x) => x.as_i64(),
        None => None,
    }
}

fn str_or_default(o: Option<&str>, default: &str) -> (res: String)
    ensures
        res@ == (match o {
            Some(s) => s@,
            None => default@,
        }),
{
    match o {
        Some(s) => text::to_owned_string(s),
        None => text::to_owned_string(default),
    }
}

// ---------------------------------------------------------------------------
// An uploader's videos
// ---------------------------------------------------------------------------

/// One entry of an uploader's video list: `None` when it lacks a `bvid`,
/// `aid`, `title`, `author` or `mid` of the right type; the other members
/// have defaults.
pub open spec fn up_video_of(item: JsonValue) -> Option<UpVideoView> {
    if field_str(item, "bvid"@) is Some && field_i64(item, "aid"@) is Some && field_str(item, "title"@) is Some
        && field_str(item, "author"@) is Some && field_i64(item, "mid"@) is Some {
        Some(UpVideoView {
            aid: field_i64(item, "aid"@).unwrap(),
            bvid: field_str(item, "bvid"@).unwrap(),
            title: field_str(item, "title"@).unwrap(),
            pic: str_or(field_str(item, "pic"@), ""@),
            play: i64_or(field_i64(item, "play"@), 0),
            length: str_or(field_str(item, "length"@), "--:--"@),
            video_review: i64_or(field_i64(item, "video_review"@), 0),
            author: field_str(item, "author"@).unwrap(),
            mid: field_i64(item, "mid"@).unwrap(),
            created: i64_or(field_i64(item, "created"@), 0),
        })
    } else {
        None
    }
}

/// The entries of `items` that read as videos, in order.
pub open spec fn up_videos_of(items: Seq<JsonValue>) -> Seq<UpVideoView>
    decreases items.len(),
{
    if items.len() == 0 {
        seq![]
    } else {
        let rest = up_videos_of(items.drop_last());
        match up_video_of(items.last()) {
            Some(v) => rest.push(v),
            None => rest,
        }
    }
}

/// The array at `data.list.vlist`, empty where there is none.
pub open spec fn vlist_of(data: JsonValue) -> Seq<JsonValue> {
    match json::member(data, "list"@) {
        Some(list) => match json::member(list, "vlist"@) {
            Some(JsonValue::Array(items)) => items@,
            _ => seq![],
        },
        None => seq![],
    }
}

pub open spec fn up_views(v: Seq<UpVideoItem>) -> Seq<UpVideoView> {
    v.map_values(|x: UpVideoItem| x@)
}

fn up_video(item: &JsonValue) -> (res: Option<UpVideoItem>)
    ensures
        match res {
            Some(v) => up_video_of(*item) == Some(v@),
            None => up_video_of(*item) is None,
        },
{
    let bvid = get_str(item, "bvid");
    let aid = get_i64(item, "aid");
    let title = get_str(item, "title");
    let author = get_str(item, "author");
    let mid = get_i64(item, "mid");
    match (bvid, aid, title, author, mid) {
        (Some(bvid), Some(aid), Some(title), Some(author), Some(mid)) => {
            let play = match get_i64(item, "play") {
                Some(n) => n,
                None => 0,
            };
            let video_review = match get_i64(item, "video_review") {
                Some(n) => n,
                None => 0,
            };
            let created = match get_i64(item, "created") {
                Some(n) => n,
                None => 0,
            };
            Some(UpVideoItem {
                aid,
                bvid: text::to_owned_string(bvid),
                title: text::to_owned_string(title),
                pic: str_or_default(get_str(item, "pic"), ""),
                play,
                length: str_or_default(get_str(item, "length"), "--:--"),
                video_review,
                author: text::to_owned_string(author),
                mid,
                created,
            })
        },
        _ => None,
    }
}

fn up_videos(items: &Vec<JsonValue>) -> (res: Vec<UpVideoItem>)
    ensures
        up_views(res@) == up_videos_of(items@),
{
    let mut out: Vec<UpVideoItem> = Vec::new();
    let mut i: usize = 0;
    while i < items.len()
        invariant
            i <= items.len(),
            up_views(out@) == up_videos_of(items@.take(i as int)),
        decreases items.len() - i,
    {
        assert(items@.take(i + 1).drop_last() =~= items@.take(i as int));
        assert(items@.take(i + 1).last() == items@[i as int]);
        match up_video(&items[i]) {
            Some(v) => {
                let ghost before = out@;
                out.push(v);
                assert(up_views(out@) =~= up_views(before).push(out@.last()@));
            },
            None => {},
        }
        i = i + 1;
    }
    assert(items@.take(items.len() as int) =~= items@);
    out
}

/// `API error ({code}): {message}`, the error of an answer whose code is
/// not 0.
pub open spec fn code_error(v: JsonValue) -> Seq<char> {
    "API error ("@ + text::signed_decimal(client::response_code(v) as int) + "): "@ + client::response_message(v)
}

/// The uploader's video list that an answer of the space-search endpoint
/// holds: an error for a code other than 0 and for a missing `data` or
/// `data.page`; the videos that read as such, in order, and the page
/// numbers, with defaults 1, 30 and 0, cut to `i32`.
pub fn up_video_list(value: &JsonValue) -> (res: Result<UpVideoListData, String>)
    ensures
        client::response_code(*value) != 0 ==> (res matches Err(e) && e@ == code_error(*value)),
        client::response_code(*value) == 0 ==> match json::member(*value, "data"@) {
            None => (res matches Err(e) && e@ == "API 返回缺少 data 字段"@),
            Some(data) => match json::member(data, "page"@) {
                None => (res matches Err(e) && e@ == "API 返回缺少 page 字段"@),
                Some(page) => (res matches Ok(list)
                    && up_views(list.vlist@) == up_videos_of(vlist_of(data))
                    && list.page.pn == i64_or(field_i64(page, "pn"@), 1) as i32
                    && list.page.ps == i64_or(field_i64(page, "ps"@), 30) as i32
                    && list.page.count == i64_or(field_i64(page, "count"@), 0) as i32),
            },
        },
{
    match client::check_code(value) {
        Err(e) => return Err(e.describe()),
        Ok(()) => {},
    }
    let data = match value.get("data") {
        Some(d) => d,
        None => return Err(text::to_owned_string("API 返回缺少 data 字段")),
    };
    let vlist = match data.get("list") {
        Some(list) => match list.get("vlist") {
            Some(v) => match v.as_array() {
                Some(items) => up_videos(items),
                None => Vec::new(),
            },
            None => Vec::new(),
        },
        None => Vec::new(),
    };
    proof {
        if !(json::member(*data, "list"@) matches Some(list) && json::member(list, "vlist"@) matches Some(JsonValue::Array(_))) {
            assert(up_views(vlist@) =~= up_videos_of(vlist_of(*data)));
        }
    }
    let page = match data.get("page") {
        Some(p) => p,
        None => return Err(text::to_owned_string("API 返回缺少 page 字段")),
    };
    let pn = match get_i64(page, "pn") {
        Some(n) => n,
        None => 1,
    };
    let ps = match get_i64(page, "ps") {
        Some(n) => n,
        None => 30,
    };
    let count = match get_i64(page, "count") {
        Some(n) => n,
        None => 0,
    };
    Ok(UpVideoListData { vlist, page: UpVideoPageInfo { pn: pn as i32, ps: ps as i32, count: count as i32 } })
}

// ---------------------------------------------------------------------------
// Home feeds
// ---------------------------------------------------------------------------

/// The array at `data.list`, when there is one.
pub open spec fn list_in(data: Option<JsonValue>) -> Option<Seq<JsonValue>> {
    match data {
        Some(d) => match json::member(d, "list"@) {
            Some(JsonValue::Array(items)) => Some(items@),
            _ => None,
        },
        None => None,
    }
}

/// The entries of the `list` array of a feed answer's data; `None` where
/// there is no such array, which the feed shows as empty.
pub fn data_list(data: Option<&JsonValue>) -> (res: Option<&Vec<JsonValue>>)
    ensures
        match res {
            Some(items) => list_in(match data { Some(d) => Some(*d), None => None }) == Some(items@),
            None => list_in(match data { Some(d) => Some(*d), None => None }) is None,
        },
{
    match data {
        Some(d) => match d.get("list") {
            Some(l) => l.as_array(),
            None => None,
        },
        None => None,
    }
}

/// The code of a popular-feed answer, 0 where it has none.
pub open spec fn popular_code(v: JsonValue) -> i64 {
    i64_or(field_i64(v, "code"@), 0)
}

/// `Popular API error {code}: {message}`.
pub open spec fn popular_error(v: JsonValue) -> Seq<char> {
    "Popular API error "@ + text::signed_decimal(popular_code(v) as int) + ": "@
        + str_or(field_str(v, "message"@), "unknown error"@)
}

/// The entries of a popular-feed answer: an error for a code other than 0;
/// else `data.list`, where there is such an array.
pub fn popular_list(value: &JsonValue) -> (res: Result<Option<&Vec<JsonValue>>, String>)
    ensures
        popular_code(*value) != 0 ==> (res matches Err(e) && e@ == popular_error(*value)),
        popular_code(*value) == 0 ==> (res matches Ok(list) && match list {
            Some(items) => list_in(json::member(*value, "data"@)) == Some(items@),
            None => list_in(json::member(*value, "data"@)) is None,
        }),
{
    let code = match get_i64(value, "code") {
        Some(n) => n,
        None => 0,
    };
    if code != 0 {
        let mut e = text::to_owned_string("Popular API error ");
        text::push_signed_decimal(&mut e, code);
        text::push_str(&mut e, ": ");
        let message = str_or_default(get_str(value, "message"), "unknown error");
        text::push_str(&mut e, message.as_str());
        return Err(e);
    }
    Ok(data_list(value.get("data")))
}

/// The issue number at `data.list[0].number`.
pub open spec fn weekly_number_in(data: Option<JsonValue>) -> Option<i64> {
    match list_in(data) {
        Some(items) => if items.len() > 0 { field_i64(items[0], "number"@) } else { None },
        None => None,
    }
}

/// The latest issue of the weekly selection, from the data of its series
/// list: the number of the first entry.
pub fn weekly_issue_number(data: Option<&JsonValue>) -> (res: Result<i64, String>)
    ensures
        match weekly_number_in(match data { Some(d) => Some(*d), None => None }) {
            Some(n) => res == Ok::<i64, String>(n),
            None => (res matches Err(e) && e@ == "每周必看期数为空"@),
        },
{
    match data_list(data) {
        Some(items) => {
            if items.len() > 0 {
                match get_i64(&items[0], "number") {
                    Some(n) => return Ok(n),
                    None => {},
                }
            }
        },
        None => {},
    }
    Err(text::to_owned_string("每周必看期数为空"))
}

/// The browser id in the data of a fingerprint answer: its `b_3` string.
pub fn buvid3(data: Option<&JsonValue>) -> (res: Result<String, String>)
    ensures
        match data {
            Some(d) => match field_str(*d, "b_3"@) {
                Some(b) => (res matches Ok(s) && s@ == b),
                None => (res matches Err(e) && e@ == "buvid3 响应为空"@),
            },
            None => (res matches Err(e) && e@ == "buvid3 响应为空"@),
        },
{
    match data {
        Some(d) => match get_str(d, "b_3") {
            Some(b) => return Ok(text::to_owned_string(b)),
            None => {},
        },
        None => {},
    }
    Err(text::to_owned_string("buvid3 响应为空"))
}

// ---------------------------------------------------------------------------
// Episode play URLs
// ---------------------------------------------------------------------------

/// Member `key` of `v`, or `v` itself where it has none.
pub open spec fn or_member(v: JsonValue, key: Seq<char>) -> JsonValue {
    match json::member(v, key) {
        Some(x) => x,
        None => v,
    }
}

/// A code that refuses the answer: present, and not 0.
pub open spec fn refused(v: JsonValue) -> bool {
    json::member(v, "code"@) is Some && client::response_code(v) != 0
}

/// Where an episode's play URL data sits in the answers of the episode
/// endpoints, which wrap it in `raw`, `data`, `result` and `video_info` in
/// varying ways; a code at the top or in `data` that is not 0 refuses it.
pub open spec fn episode_payload(value: JsonValue) -> Result<JsonValue, Seq<char>> {
    if refused(value) {
        Err(code_error(value))
    } else {
        let outer = or_member(value, "raw"@);
        match json::member(outer, "data"@) {
            Some(d) => if refused(d) {
                Err(code_error(d))
            } else {
                Ok(or_member(or_member(d, "result"@), "video_info"@))
            },
            None => Ok(or_member(or_member(outer, "result"@), "video_info"@)),
        }
    }
}

fn checked(v: &JsonValue) -> (res: Result<(), String>)
    ensures
        refused(*v) ==> (res matches Err(e) && e@ == code_error(*v)),
        !refused(*v) ==> res is Ok,
{
    if v.get("code").is_some() {
        match client::check_code(v) {
            Err(e) => return Err(e.describe()),
            Ok(()) => {},
        }
    }
    Ok(())
}

fn or_member_ref<'a>(v: &'a JsonValue, key: &str) -> (res: &'a JsonValue)
    ensures
        *res == or_member(*v, key@),
{
    match v.get(key) {
        Some(x) => x,
        None => v,
    }
}

/// The play URL data of an episode answer, as `episode_payload` finds it.
pub fn episode_play_payload(value: &JsonValue) -> (res: Result<&JsonValue, String>)
    ensures
        match episode_payload(*value) {
            Ok(p) => (res matches Ok(r) && *r == p),
            Err(m) => (res matches Err(e) && e@ == m),
        },
{
    checked(value)?;
    let outer = or_member_ref(value, "raw");
    match outer.get("data") {
        Some(d) => {
            checked(d)?;
            Ok(or_member_ref(or_member_ref(d, "result"), "video_info"))
        },
        None => Ok(or_member_ref(or_member_ref(outer, "result"), "video_info")),
    }
}

// ---------------------------------------------------------------------------
// Live stream URLs
// ---------------------------------------------------------------------------

/// The quality the best-stream lookup asks for again after the first
/// answer: an error when the room is not live; the highest quality offered
/// when there is a positive one; else none, and the first answer stands.
pub fn best_quality_request(initial: &LivePlayInfoData) -> (res: Result<Option<i64>, String>)
    ensures
        initial.live_status != 1 ==> (res matches Err(e) && e@ == "直播间当前未开播"@),
        initial.live_status == 1 ==> match live::max_of(live::accepted_qualities(live::offers_of(*initial))) {
            Some(q) => res == Ok::<Option<i64>, String>(if q > 0 { Some(q) } else { None }),
            None => res == Ok::<Option<i64>, String>(None),
        },
{
    if initial.live_status != 1 {
        return Err(text::to_owned_string("直播间当前未开播"));
    }
    match initial.highest_available_quality() {
        Some(q) => if q > 0 {
            Ok(Some(q))
        } else {
            Ok(None)
        },
        None => Ok(None),
    }
}

/// The URLs of the best stream: those `stream_urls` picks from the second
/// answer where one came, else from the first; an error where there are
/// none.
pub fn best_stream_urls(initial: &LivePlayInfoData, requeried: Option<&LivePlayInfoData>) -> (res: Result<Vec<String>, String>)
    ensures
        ({
            let selected = match requeried {
                Some(r) => *r,
                None => *initial,
            };
            if live::stream_urls_spec(selected).len() > 0 {
                res matches Ok(urls) && text::string_views(urls@) == live::stream_urls_spec(selected)
            } else {
                res matches Err(e) && e@ == "最高画质没有可用播放地址"@
            }
        }),
{
    let selected = match requeried {
        Some(r) => r,
        None => initial,
    };
    let urls = selected.stream_urls();
    if urls.len() == 0 {
        assert(text::string_views(urls@).len() == 0);
        return Err(text::to_owned_string("最高画质没有可用播放地址"));
    }
    assert(text::string_views(urls@).len() == urls@.len());
    Ok(urls)
}

/// The URLs of the default stream: an error when the room is not live or
/// the answer offers none.
pub fn default_live_stream_urls(info: &LivePlayInfoData) -> (res: Result<Vec<String>, String>)
    ensures
        info.live_status != 1 ==> (res matches Err(e) && e@ == "直播间当前未开播"@),
        info.live_status == 1 ==> if live::offer_urls(live::offers_of(*info)).len() > 0 {
            res matches Ok(urls) && text::string_views(urls@) == live::offer_urls(live::offers_of(*info))
        } else {
            res matches Err(e) && e@ == "直播默认播放地址为空"@
        },
{
    if info.live_status != 1 {
        return Err(text::to_owned_string("直播间当前未开播"));
    }
    let urls = info.default_stream_urls();
    if urls.len() == 0 {
        assert(text::string_views(urls@).len() == 0);
        return Err(text::to_owned_string("直播默认播放地址为空"));
    }
    assert(text::string_views(urls@).len() == urls@.len());
    Ok(urls)
}

/// What the uploader page shows beside the videos of page `page`: whether
/// more pages follow (the count exceeds the videos of the pages so far),
/// and the uploader's name, taken from the first video.
pub fn up_videos_summary(data: &UpVideoListData, page: i32) -> (res: (bool, String))
    requires
        i32::MIN <= page * data.page.ps <= i32::MAX,
    ensures
        res.0 == (data.page.count > page * data.page.ps),
        res.1@ == (if data.vlist@.len() > 0 { data.vlist@[0].author@ } else { Seq::<char>::empty() }),
{
    let has_more = data.page.count > page * data.page.ps;
    let name = if data.vlist.len() > 0 {
        text::to_owned_string(data.vlist[0].author.as_str())
    } else {
        String::new()
    };
    (has_more, name)
}

} // verus!
