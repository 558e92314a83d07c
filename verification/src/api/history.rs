//! Watch history models: the records the history API returns and how the
//! client labels and routes them.

use vstd::prelude::*;
use crate::text;

verus! {

/// Stable identity used by Bilibili's history deletion endpoint.
#[derive(Debug, Clone)]
pub struct HistoryKey {
    pub business: String,
    pub kid: i64,
}

impl HistoryKey {
    /// `{business}_{kid}`.
    pub fn api_value(&self) -> (res: String)
        ensures
            res@ == self.business@ + seq!['_'] + text::signed_decimal(self.kid as int),
    {
        let mut s = text::to_owned_string(self.business.as_str());
        text::push_char(&mut s, '_');
        text::push_signed_decimal(&mut s, self.kid);
        s
    }
}

/// Response data of the history cursor API.
#[derive(Debug)]
pub struct HistoryData {
    pub cursor: HistoryCursor,
    pub tab: Option<Vec<HistoryTab>>,
    pub list: Vec<HistoryItem>,
}

/// Cursor for pagination.
#[derive(Debug, Clone)]
pub struct HistoryCursor {
    /// Max value for the next page.
    pub max: i64,
    /// View timestamp for the next page.
    pub view_at: i64,
    /// Business type.
    pub business: String,
    /// Page size.
    pub ps: i32,
}

/// Tab types in history.
#[derive(Debug)]
pub struct HistoryTab {
    pub tab_type: String,
    pub name: String,
}

/// Individual history item.
#[derive(Debug, Clone)]
pub struct HistoryItem {
    pub title: String,
    pub long_title: Option<String>,
    pub cover: Option<String>,
    pub covers: Option<Vec<String>>,
    pub uri: Option<String>,
    pub history: HistoryMeta,
    pub videos: i32,
    pub author_name: String,
    pub author_face: Option<String>,
    pub author_mid: i64,
    /// Last view timestamp.
    pub view_at: i64,
    /// Watch progress in seconds.
    pub progress: i64,
    pub badge: Option<String>,
    pub show_title: Option<String>,
    /// Duration in seconds.
    pub duration: i64,
    pub current: Option<String>,
    pub total: i32,
    pub new_desc: Option<String>,
    pub is_finish: i32,
    pub is_fav: i32,
    pub kid: i64,
    pub tag_name: Option<String>,
    /// Live status (0: not live, 1: live).
    pub live_status: i32,
}

/// History metadata containing ids.
#[derive(Debug, Clone)]
pub struct HistoryMeta {
    pub oid: i64,
    pub epid: i64,
    pub bvid: Option<String>,
    pub page: i32,
    pub cid: i64,
    pub part: Option<String>,
    /// Business type: archive, pgc, live, article, article-list.
    pub business: String,
    pub dt: i32,
}

pub open spec fn is_video_business(b: Seq<char>) -> bool {
    b == "archive"@ || b == "pgc"@
}

pub open spec fn is_article_business(b: Seq<char>) -> bool {
    b == "article"@ || b == "article-list"@
}

/// The kinds of history records: an `archive` (a video) and a `pgc` (a
/// bangumi episode) are videos; an `article` and an `article-list` are
/// articles; these four, and no other business, can be opened and deleted
/// from history. A `live` record is neither.
pub proof fn lemma_history_kinds(b: Seq<char>)
    ensures
        is_video_business("archive"@),
        is_video_business("pgc"@),
        is_article_business("article"@),
        is_article_business("article-list"@),
        is_video_business(b) || is_article_business(b)
            <==> (b == "archive"@ || b == "pgc"@ || b == "article"@ || b == "article-list"@),
        is_video_business(b) ==> !is_article_business(b),
        !is_video_business("live"@) && !is_article_business("live"@),
{
    reveal_strlit("archive");
    reveal_strlit("pgc");
    reveal_strlit("article");
    reveal_strlit("article-list");
    reveal_strlit("live");
    assert("archive"@ != "article"@) by { assert("archive"@[2] != "article"@[2]); }
    assert("archive"@ != "article-list"@) by { assert("archive"@.len() != "article-list"@.len()); }
    assert("pgc"@ != "article"@) by { assert("pgc"@[0] != "article"@[0]); }
    assert("pgc"@ != "article-list"@) by { assert("pgc"@[0] != "article-list"@[0]); }
    assert("live"@ != "archive"@) by { assert("live"@[0] != "archive"@[0]); }
    assert("live"@ != "pgc"@) by { assert("live"@[0] != "pgc"@[0]); }
    assert("live"@ != "article"@) by { assert("live"@[0] != "article"@[0]); }
    assert("live"@ != "article-list"@) by { assert("live"@[0] != "article-list"@[0]); }
}

/// The relative label of a view `diff` seconds ago; past a week, the year of
/// `view_at` counted in 365-day years.
pub open spec fn view_time_label(diff: int, view_at: int) -> Seq<char> {
    if diff < 60 {
        "刚刚"@
    } else if diff < 3600 {
        text::signed_decimal(diff / 60) + "分钟前"@
    } else if diff < 86400 {
        text::signed_decimal(diff / 3600) + "小时前"@
    } else if diff < 604800 {
        text::signed_decimal(diff / 86400) + "天前"@
    } else {
        text::signed_decimal(1970 + text::trunc_div(text::trunc_div(view_at, 86400), 365)) + "年"@
    }
}

/// The relative label of a view: under a minute "刚刚"; then whole minutes
/// ("n分钟前") under an hour, whole hours ("n小时前") under a day, and whole
/// days ("n天前") under a week; a view `n` whole units ago, and less than
/// `n + 1`, reads as `n` of them.
pub proof fn lemma_view_time_labels(diff: int, view_at: int, n: int)
    ensures
        diff < 60 ==> view_time_label(diff, view_at) == "刚刚"@,
        (1 <= n < 60 && 60 * n <= diff < 60 * (n + 1))
            ==> view_time_label(diff, view_at) == text::signed_decimal(n) + "分钟前"@,
        (1 <= n < 24 && 3600 * n <= diff < 3600 * (n + 1))
            ==> view_time_label(diff, view_at) == text::signed_decimal(n) + "小时前"@,
        (1 <= n < 7 && 86400 * n <= diff < 86400 * (n + 1))
            ==> view_time_label(diff, view_at) == text::signed_decimal(n) + "天前"@,
{
    if 1 <= n && 60 * n <= diff < 60 * (n + 1) {
        assert(diff / 60 == n) by (nonlinear_arith)
            requires 60 * n <= diff < 60 * (n + 1);
    }
    if 1 <= n && 3600 * n <= diff < 3600 * (n + 1) {
        assert(diff / 3600 == n) by (nonlinear_arith)
            requires 3600 * n <= diff < 3600 * (n + 1);
    }
    if 1 <= n && 86400 * n <= diff < 86400 * (n + 1) {
        assert(diff / 86400 == n) by (nonlinear_arith)
            requires 86400 * n <= diff < 86400 * (n + 1);
    }
}

/// `a - b` as `i64` arithmetic wraps.
pub open spec fn wrapping_sub_i64(a: i64, b: i64) -> i64 {
    let d = a - b;
    if d > i64::MAX {
        (d - 0x1_0000_0000_0000_0000) as i64
    } else if d < i64::MIN {
        (d + 0x1_0000_0000_0000_0000) as i64
    } else {
        d as i64
    }
}

/// `SystemTime::now()` as whole seconds since the Unix epoch, or 0 when the
/// clock reads before the epoch. Nothing is claimed of the value.
#[verifier::external_body]
fn unix_now_secs() -> (res: u64) {
    match std::time::SystemTime::now().duration_since(std::time::UNIX_EPOCH) {
        Ok(d) => d.as_secs(),
        Err(_) => 0,
    }
}

impl HistoryItem {
    /// The cover, or the first of the alternative covers.
    pub fn get_cover(&self) -> (res: Option<&str>)
        ensures
            match res {
                Some(c) => (match self.cover {
                    Some(cover) if cover@.len() > 0 => c@ == cover@,
                    _ => match self.covers {
                        Some(covers) => covers@.len() > 0 && c@ == covers@[0]@,
                        None => false,
                    },
                }),
                None => (match self.cover {
                    Some(cover) => cover@.len() == 0,
                    None => true,
                }) && (match self.covers {
                    Some(covers) => covers@.len() == 0,
                    None => true,
                }),
            },
    {
        if let Some(cover) = &self.cover {
            if !cover.as_str().is_empty() {
                return Some(cover.as_str());
            }
        }
        if let Some(covers) = &self.covers {
            if covers.len() > 0 {
                return Some(covers[0].as_str());
            }
        }
        None
    }

    /// The duration as `mm:ss`, or `--:--` when not positive.
    pub fn format_duration(&self) -> (res: String)
        ensures
            res@ == (if self.duration > 0 {
                text::minutes_seconds(self.duration as int)
            } else {
                "--:--"@
            }),
    {
        if self.duration > 0 {
            text::format_minutes_seconds(self.duration)
        } else {
            text::to_owned_string("--:--")
        }
    }

    /// The progress as `mm:ss`, or `00:00` when not positive.
    pub fn format_progress(&self) -> (res: String)
        ensures
            res@ == (if self.progress > 0 {
                text::minutes_seconds(self.progress as int)
            } else {
                "00:00"@
            }),
    {
        if self.progress > 0 {
            text::format_minutes_seconds(self.progress)
        } else {
            text::to_owned_string("00:00")
        }
    }

    /// The relative view time at `now` (seconds since the Unix epoch), the
    /// difference taken as wrapping `i64` arithmetic.
    pub fn format_view_time_at(&self, now: i64) -> (res: String)
        ensures
            res@ == view_time_label(wrapping_sub_i64(now, self.view_at) as int, self.view_at as int),
    {
        let diff = now.wrapping_sub(self.view_at);
        if diff < 60 {
            text::to_owned_string("刚刚")
        } else if diff < 3600 {
            let mut s = text::i64_to_string(diff / 60);
            text::push_str(&mut s, "分钟前");
            s
        } else if diff < 86400 {
            let mut s = text::i64_to_string(diff / 3600);
            text::push_str(&mut s, "小时前");
            s
        } else if diff < 604800 {
            let mut s = text::i64_to_string(diff / 86400);
            text::push_str(&mut s, "天前");
            s
        } else {
            let days = self.view_at / 86400;
            assert(days == text::trunc_div(self.view_at as int, 86400));
            let years = days / 365;
            assert(years == text::trunc_div(days as int, 365));
            let mut s = text::i64_to_string(1970 + years);
            text::push_str(&mut s, "年");
            s
        }
    }

    /// The relative view time now.
    pub fn format_view_time(&self) -> (res: String)
        ensures
            exists|now: i64| res@ == view_time_label(wrapping_sub_i64(now, self.view_at) as int, self.view_at as int),
    {
        let secs = unix_now_secs();
        let now: i64 = secs as i64;
        self.format_view_time_at(now)
    }

    /// A video (archive or pgc).
    pub fn is_video(&self) -> (res: bool)
        ensures
            res == is_video_business(self.history.business@),
    {
        text::str_eq(self.history.business.as_str(), "archive") || text::str_eq(self.history.business.as_str(), "pgc")
    }

    /// A live room.
    pub fn is_live(&self) -> (res: bool)
        ensures
            res == (self.history.business@ == "live"@),
    {
        text::str_eq(self.history.business.as_str(), "live")
    }

    /// An article or article list.
    pub fn is_article(&self) -> (res: bool)
        ensures
            res == is_article_business(self.history.business@),
    {
        text::str_eq(self.history.business.as_str(), "article")
            || text::str_eq(self.history.business.as_str(), "article-list")
    }

    /// A video or an article.
    pub fn is_selectable(&self) -> (res: bool)
        ensures
            res == (is_video_business(self.history.business@) || is_article_business(self.history.business@)),
    {
        self.is_video() || self.is_article()
    }

    /// The deletion key of a selectable record with a positive kid.
    pub fn history_key(&self) -> (res: Option<HistoryKey>)
        ensures
            match res {
                Some(k) => self.kid > 0 && (is_video_business(self.history.business@)
                    || is_article_business(self.history.business@)) && k.business@ == self.history.business@
                    && k.kid == self.kid,
                None => !(self.kid > 0 && (is_video_business(self.history.business@)
                    || is_article_business(self.history.business@))),
            },
    {
        if self.kid > 0 && self.is_selectable() {
            Some(HistoryKey { business: self.history.business.clone(), kid: self.kid })
        } else {
            None
        }
    }

    /// The article id: `oid` of an article, `cid` of an article list, when
    /// positive.
    pub fn article_id(&self) -> (res: Option<i64>)
        ensures
            res == (if self.history.business@ == "article"@ {
                if self.history.oid > 0 { Some(self.history.oid) } else { None }
            } else if self.history.business@ == "article-list"@ {
                if self.history.cid > 0 { Some(self.history.cid) } else { None }
            } else {
                None::<i64>
            }),
    {
        if text::str_eq(self.history.business.as_str(), "article") {
            if self.history.oid > 0 { Some(self.history.oid) } else { None }
        } else if text::str_eq(self.history.business.as_str(), "article-list") {
            if self.history.cid > 0 { Some(self.history.cid) } else { None }
        } else {
            None
        }
    }

    /// The bvid, when present and not empty.
    pub fn get_bvid(&self) -> (res: Option<&str>)
        ensures
            match res {
                Some(b) => self.history.bvid matches Some(v) && v@.len() > 0 && b@ == v@,
                None => !(self.history.bvid matches Some(v) && v@.len() > 0),
            },
    {
        match &self.history.bvid {
            Some(v) => {
                if v.as_str().is_empty() {
                    None
                } else {
                    Some(v.as_str())
                }
            },
            None => None,
        }
    }
}

/// The path up to the first `?` or `#` (`split(['?', '#']).next()`).
pub open spec fn before_query(s: Seq<char>) -> Seq<char>
    decreases s.len(),
{
    if s.len() == 0 || s[0] == '?' || s[0] == '#' {
        seq![]
    } else {
        seq![s[0]] + before_query(s.drop_first())
    }
}

/// The first non-empty `/`-separated segment (`split('/').find(|s| !s.is_empty())`).
pub open spec fn first_segment(s: Seq<char>) -> Option<Seq<char>>
    decreases s.len(),
{
    if s.len() == 0 {
        None
    } else if s[0] == '/' {
        first_segment(s.drop_first())
    } else {
        Some(text::before(s, '/'))
    }
}

/// The live room id a live-room URI names: the first path segment of a URI
/// on `live.bilibili.com` or `m.live.bilibili.com` (any case, any port,
/// with or without scheme), when it is a positive integer.
pub open spec fn live_room_id_from_uri(uri: Seq<char>) -> Option<i64> {
    let t = text::trim(uri);
    if t.len() == 0 {
        None
    } else {
        let no_scheme = match text::strip_prefix(t, "https://"@) {
            Some(r) => r,
            None => text::without_prefix(t, "http://"@),
        };
        let host_path = text::without_prefix(no_scheme, "//"@);
        let host = text::before(text::before(host_path, '/'), ':').map_values(|c: char| text::ascii_lower(c));
        if host != "live.bilibili.com"@ && host != "m.live.bilibili.com"@ {
            None
        } else {
            let path = match text::split_once(host_path, '/') {
                Some((_, rest)) => rest,
                None => seq![],
            };
            match first_segment(before_query(path)) {
                Some(seg) => match text::parse_i64_spec(seg) {
                    Some(id) => if id > 0 { Some(id) } else { None },
                    None => None,
                },
                None => None,
            }
        }
    }
}

fn before_query_exec(s: &[char]) -> (res: Vec<char>)
    ensures
        res@ == before_query(s@),
{
    let mut i: usize = 0;
    assert(s@.skip(0) =~= s@);
    assert(s@.take(0) + before_query(s@) =~= before_query(s@));
    while i < s.len() && s[i] != '?' && s[i] != '#'
        invariant
            i <= s.len(),
            before_query(s@) == s@.take(i as int) + before_query(s@.skip(i as int)),
        decreases s.len() - i,
    {
        assert(s@.skip(i as int).drop_first() =~= s@.skip(i + 1));
        assert(s@.take(i as int) + seq![s@[i as int]] =~= s@.take(i + 1));
        i = i + 1;
    }
    assert(before_query(s@.skip(i as int)) =~= Seq::<char>::empty());
    let r = text::sub_chars(s, 0, i);
    assert(r@ =~= s@.take(i as int) + Seq::<char>::empty());
    r
}

fn first_segment_exec(s: &[char]) -> (res: Option<Vec<char>>)
    ensures
        match res {
            Some(seg) => first_segment(s@) == Some(seg@),
            None => first_segment(s@) is None,
        },
{
    let mut i: usize = 0;
    assert(s@.skip(0) =~= s@);
    while i < s.len() && s[i] == '/'
        invariant
            i <= s.len(),
            first_segment(s@) == first_segment(s@.skip(i as int)),
        decreases s.len() - i,
    {
        assert(s@.skip(i as int).drop_first() =~= s@.skip(i + 1));
        i = i + 1;
    }
    if i == s.len() {
        return None;
    }
    let rest = text::sub_chars(s, i, s.len());
    assert(rest@ =~= s@.skip(i as int));
    Some(text::before_char(&rest, '/'))
}

impl HistoryItem {
    /// The live room id of a live history entry: `oid` when positive, else
    /// the room the URI names.
    pub fn get_live_room_id(&self) -> (res: Option<i64>)
        ensures
            res == (if self.history.oid > 0 {
                Some(self.history.oid)
            } else {
                match self.uri {
                    Some(u) => live_room_id_from_uri(u@),
                    None => None,
                }
            }),
    {
        if self.history.oid > 0 {
            return Some(self.history.oid);
        }
        match &self.uri {
            Some(u) => Self::parse_live_room_id_from_uri(u.as_str()),
            None => None,
        }
    }

    fn parse_live_room_id_from_uri(uri: &str) -> (res: Option<i64>)
        ensures
            res == live_room_id_from_uri(uri@),
    {
        let chars = text::chars_of(uri);
        let trimmed = text::trimmed(&chars);
        if trimmed.len() == 0 {
            return None;
        }
        let https = text::chars_of("https://");
        let http = text::chars_of("http://");
        let slashes = text::chars_of("//");
        let no_scheme = match text::strip_prefix_chars(&trimmed, &https) {
            Some(r) => r,
            None => text::without_prefix_chars(&trimmed, &http),
        };
        let host_path = text::without_prefix_chars(&no_scheme, &slashes);
        let first_part = text::before_char(&host_path, '/');
        let host_raw = text::before_char(&first_part, ':');
        let host = text::ascii_lowercase(&host_raw);
        let host_str = text::string_from_chars(&host);
        if !text::str_eq(host_str.as_str(), "live.bilibili.com")
            && !text::str_eq(host_str.as_str(), "m.live.bilibili.com") {
            return None;
        }
        let path: Vec<char> = match text::split_once_char(&host_path, '/') {
            Some((_, rest)) => rest,
            None => Vec::new(),
        };
        let query_free = before_query_exec(&path);
        let seg = first_segment_exec(&query_free)?;
        match text::parse_i64(&seg) {
            Some(id) => if id > 0 { Some(id) } else { None },
            None => None,
        }
    }
}

} // verus!
