//! Video info models.

use vstd::prelude::*;
use crate::text;

verus! {

#[derive(Debug)]
pub struct VideoInfo {
    pub bvid: String,
    pub aid: i64,
    pub cid: i64,
    pub title: String,
    pub desc: Option<String>,
    pub pic: Option<String>,
    pub duration: Option<i64>,
    pub pubdate: Option<i64>,
    pub owner: VideoOwner,
    pub stat: VideoStat,
    pub pages: Option<Vec<VideoPage>>,
}

#[derive(Debug)]
pub struct VideoOwner {
    pub mid: i64,
    pub name: String,
    pub face: String,
}

#[derive(Debug, Clone)]
pub struct VideoStat {
    pub view: i64,
    pub danmaku: i64,
    pub like: i64,
    pub coin: i64,
    pub favorite: i64,
    pub share: i64,
    pub reply: Option<i64>,
}

#[derive(Debug, Clone)]
pub struct VideoPage {
    pub cid: i64,
    pub page: i32,
    pub part: String,
    pub duration: i64,
}

/// Related video item.
#[derive(Debug, Clone)]
pub struct RelatedVideoItem {
    pub aid: Option<i64>,
    pub bvid: Option<String>,
    pub cid: Option<i64>,
    pub title: Option<String>,
    pub pic: Option<String>,
    pub duration: Option<i64>,
    pub owner: Option<RelatedVideoOwner>,
    pub stat: Option<RelatedVideoStat>,
}

#[derive(Debug, Clone)]
pub struct RelatedVideoOwner {
    pub mid: Option<i64>,
    pub name: Option<String>,
    pub face: Option<String>,
}

#[derive(Debug, Clone)]
pub struct RelatedVideoStat {
    pub view: Option<i64>,
    pub danmaku: Option<i64>,
}

impl RelatedVideoItem {
    /// The author's name, or `-`.
    pub fn author_name(&self) -> (res: &str)
        ensures
            res@ == (match self.owner {
                Some(RelatedVideoOwner { name: Some(n), .. }) => n@,
                _ => "-"@,
            }),
    {
        match &self.owner {
            Some(o) => match &o.name {
                Some(n) => n.as_str(),
                None => "-",
            },
            None => "-",
        }
    }

    /// The duration as `mm:ss`, or `--:--` when absent.
    pub fn format_duration(&self) -> (res: String)
        ensures
            res@ == (match self.duration {
                Some(d) => text::minutes_seconds(d as int),
                None => "--:--"@,
            }),
    {
        match self.duration {
            Some(duration) => text::format_minutes_seconds(duration),
            None => text::to_owned_string("--:--"),
        }
    }

    /// The cover URL, made absolute when protocol-relative.
    pub fn cover_url(&self) -> (res: Option<String>)
        ensures
            match res {
                Some(u) => self.pic matches Some(p) && u@ == text::normalized_url_spec(p@),
                None => self.pic is None,
            },
    {
        match &self.pic {
            Some(url) => Some(text::normalized_url(url.as_str())),
            None => None,
        }
    }
}

#[derive(Debug, Clone)]
pub struct UpVideoItem {
    pub aid: i64,
    pub bvid: String,
    pub title: String,
    pub pic: String,
    pub play: i64,
    pub length: String,
    pub video_review: i64,
    pub author: String,
    pub mid: i64,
    pub created: i64,
}

/// An uploader's video as plain values.
pub struct UpVideoView {
    pub aid: i64,
    pub bvid: Seq<char>,
    pub title: Seq<char>,
    pub pic: Seq<char>,
    pub play: i64,
    pub length: Seq<char>,
    pub video_review: i64,
    pub author: Seq<char>,
    pub mid: i64,
    pub created: i64,
}

impl View for UpVideoItem {
    type V = UpVideoView;

    open spec fn view(&self) -> UpVideoView {
        UpVideoView {
            aid: self.aid,
            bvid: self.bvid@,
            title: self.title@,
            pic: self.pic@,
            play: self.play,
            length: self.length@,
            video_review: self.video_review,
            author: self.author@,
            mid: self.mid,
            created: self.created,
        }
    }
}

pub struct UpVideoListData {
    pub vlist: Vec<UpVideoItem>,
    pub page: UpVideoPageInfo,
}

pub struct UpVideoPageInfo {
    pub pn: i32,
    pub ps: i32,
    pub count: i32,
}

impl UpVideoItem {
    /// The duration text as the API gives it.
    pub fn format_duration(&self) -> (res: String)
        ensures
            res@ == self.length@,
    {
        text::to_owned_string(self.length.as_str())
    }

    /// The cover URL, made absolute when protocol-relative.
    pub fn cover_url(&self) -> (res: String)
        ensures
            res@ == text::normalized_url_spec(self.pic@),
    {
        text::normalized_url(self.pic.as_str())
    }
}

} // verus!
