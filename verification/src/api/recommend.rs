//! Video recommendation models.

use vstd::prelude::*;
use crate::text;

verus! {

/// The home-page feeds.
#[derive(Debug, Clone, Copy, PartialEq, Eq, Structural)]
pub enum HomeFeed {
    /// The personalized feed returned by Bilibili's homepage recommendation API.
    Recommended,
    /// Bilibili's public popular feed.
    Popular,
    Weekly,
    Ranking,
    MustWatch,
}

impl HomeFeed {
    pub const ALL: [HomeFeed; 5] = [
        HomeFeed::Recommended,
        HomeFeed::Popular,
        HomeFeed::Weekly,
        HomeFeed::Ranking,
        HomeFeed::MustWatch,
    ];

    /// The feed's tab label.
    pub fn label(self) -> (res: &'static str)
        ensures
            res@ == (match self {
                HomeFeed::Recommended => "首页推荐"@,
                HomeFeed::Popular => "综合热门"@,
                HomeFeed::Weekly => "每周必看"@,
                HomeFeed::Ranking => "排行榜"@,
                HomeFeed::MustWatch => "入站必刷"@,
            }),
    {
        match self {
            Self::Recommended => "首页推荐",
            Self::Popular => "综合热门",
            Self::Weekly => "每周必看",
            Self::Ranking => "排行榜",
            Self::MustWatch => "入站必刷",
        }
    }
}

#[derive(Debug)]
pub struct RecommendData {
    pub item: Vec<VideoItem>,
}

#[derive(Debug, Clone)]
pub struct VideoItem {
    pub id: i64,
    pub bvid: Option<String>,
    pub cid: Option<i64>,
    pub goto: String,
    pub uri: Option<String>,
    pub pic: Option<String>,
    pub title: Option<String>,
    pub duration: Option<i64>,
    pub pubdate: Option<i64>,
    pub owner: Option<VideoOwner>,
    pub stat: Option<VideoStat>,
}

#[derive(Debug, Clone)]
pub struct VideoOwner {
    pub mid: i64,
    pub name: String,
    pub face: Option<String>,
    pub follower: Option<i64>,
}

#[derive(Debug, Clone)]
pub struct VideoStat {
    pub view: Option<i64>,
    pub like: Option<i64>,
    pub danmaku: Option<i64>,
    pub reply: Option<i64>,
}

impl VideoItem {
    /// The duration as `mm:ss`, or `--:--` when absent.
    pub fn format_duration(&self) -> (res: String)
        ensures
            res@ == (match self.duration {
                Some(d) => text::minutes_seconds(d as int),
                None => "--:--"@,
            }),
    {
        match self.duration {
            Some(duration) => text::format_minutes_seconds(duration),
            None => text::to_owned_string("--:--"),
        }
    }

    /// The author's name, or `-`.
    pub fn author_name(&self) -> (res: &str)
        ensures
            res@ == (match self.owner {
                Some(o) => o.name@,
                None => "-"@,
            }),
    {
        match &self.owner {
            Some(o) => o.name.as_str(),
            None => "-",
        }
    }
}

/// The home-feed videos that can be played: a positive id and a BV id.
pub open spec fn playable(v: VideoItem) -> bool {
    v.id > 0 && v.bvid is Some
}

/// The playable videos of `items`, in order.
pub open spec fn playable_videos(items: Seq<VideoItem>) -> Seq<VideoItem>
    decreases items.len(),
{
    if items.len() == 0 {
        seq![]
    } else {
        let prev = playable_videos(items.drop_last());
        if playable(items.last()) { prev.push(items.last()) } else { prev }
    }
}

/// Keeps the videos of a home feed that can be played, in order.
pub fn playable_home_videos(items: Vec<VideoItem>) -> (res: Vec<VideoItem>)
    ensures
        res@ == playable_videos(items@),
{
    let mut out: Vec<VideoItem> = Vec::new();
    let mut rest = items;
    let ghost all = rest@;
    let ghost mut i: int = 0;
    assert(all.skip(0) =~= all);
    while rest.len() > 0
        invariant
            0 <= i <= all.len(),
            rest@ == all.skip(i),
            out@ == playable_videos(all.take(i)),
        decreases rest.len(),
    {
        let item = rest.remove(0);
        proof {
            assert(item == all[i]);
            assert(rest@ =~= all.skip(i + 1));
            assert(all.take(i + 1).drop_last() =~= all.take(i));
            assert(all.take(i + 1).last() == all[i]);
        }
        if item.id > 0 && item.bvid.is_some() {
            out.push(item);
        }
        proof {
            i = i + 1;
        }
    }
    assert(all.take(all.len() as int) =~= all);
    out
}

} // verus!
