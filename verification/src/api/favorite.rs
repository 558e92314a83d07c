//! Favorite-folder and favorite-resource models.

use vstd::prelude::*;

verus! {

#[derive(Debug, Clone, PartialEq, Eq)]
pub enum FavoriteSource {
    WatchLater,
    Created { media_id: i64, title: String },
    Collected { season_id: i64, mid: i64, title: String },
}

/// Sort orders of a favorite folder.
#[derive(Debug, Clone, Copy, PartialEq, Eq, Structural)]
pub enum FavoriteOrder {
    RecentlyFavorited,
    MostPlayed,
    RecentlyPublished,
}

/// The successor of each order in the cycle the sort key steps through.
pub open spec fn next_order(o: FavoriteOrder) -> FavoriteOrder {
    match o {
        FavoriteOrder::RecentlyFavorited => FavoriteOrder::MostPlayed,
        FavoriteOrder::MostPlayed => FavoriteOrder::RecentlyPublished,
        FavoriteOrder::RecentlyPublished => FavoriteOrder::RecentlyFavorited,
    }
}

/// The query value of each order on the web.
pub open spec fn order_value(o: FavoriteOrder) -> Seq<char> {
    match o {
        FavoriteOrder::RecentlyFavorited => "mtime"@,
        FavoriteOrder::MostPlayed => "view"@,
        FavoriteOrder::RecentlyPublished => "pubtime"@,
    }
}

impl FavoriteOrder {
    /// The query value of the order.
    pub fn api_value(self) -> (res: &'static str)
        ensures
            res@ == order_value(self),
    {
        match self {
            Self::RecentlyFavorited => "mtime",
            Self::MostPlayed => "view",
            Self::RecentlyPublished => "pubtime",
        }
    }

    /// The next order in the cycle.
    pub fn next(self) -> (res: Self)
        ensures
            res == next_order(self),
    {
        match self {
            Self::RecentlyFavorited => Self::MostPlayed,
            Self::MostPlayed => Self::RecentlyPublished,
            Self::RecentlyPublished => Self::RecentlyFavorited,
        }
    }
}

/// Stepping to the next order three times comes back to the start, and the
/// three orders in between are all different.
pub proof fn lemma_order_cycle(o: FavoriteOrder)
    ensures
        next_order(next_order(next_order(o))) == o,
        next_order(o) != o,
        next_order(next_order(o)) != o,
{
}

/// Different orders query different values.
pub proof fn lemma_order_values_distinct(a: FavoriteOrder, b: FavoriteOrder)
    requires
        a != b,
    ensures
        order_value(a) != order_value(b),
{
    reveal_strlit("mtime");
    reveal_strlit("view");
    reveal_strlit("pubtime");
    assert(order_value(a).len() != order_value(b).len() || order_value(a)[0] != order_value(b)[0]);
}

#[derive(Debug, Clone)]
pub struct FavoriteFolderData {
    pub list: Vec<FavoriteFolder>,
}

#[derive(Debug, Clone)]
pub struct FavoriteFolder {
    pub id: i64,
    pub fid: Option<i64>,
    pub mid: i64,
    pub title: String,
    pub media_count: Option<i32>,
    pub fav_state: Option<i32>,
    pub attr: Option<i32>,
}

#[derive(Debug, Clone)]
pub struct FavoriteResourceData {
    pub info: Option<FavoriteInfo>,
    pub medias: Vec<FavoriteMedia>,
    pub has_more: Option<bool>,
}

#[derive(Debug, Clone)]
pub struct FavoriteInfo {
    pub id: i64,
    pub title: String,
    pub media_count: Option<i32>,
    pub upper: Option<FavoriteUpper>,
}

#[derive(Debug, Clone)]
pub struct FavoriteMedia {
    pub id: i64,
    pub bvid: Option<String>,
    pub title: String,
    pub cover: Option<String>,
    pub duration: Option<i64>,
    pub upper: Option<FavoriteUpper>,
    pub cnt_info: Option<FavoriteCountInfo>,
}

#[derive(Debug, Clone)]
pub struct FavoriteUpper {
    pub mid: i64,
    pub name: String,
    pub face: Option<String>,
}

#[derive(Debug, Clone)]
pub struct FavoriteCountInfo {
    pub play: Option<i64>,
    pub danmaku: Option<i64>,
    pub collect: Option<i64>,
}

#[derive(Debug, Clone)]
pub struct WatchLaterData {
    pub count: i64,
    pub list: Vec<WatchLaterItem>,
}

#[derive(Debug, Clone)]
pub struct WatchLaterItem {
    pub aid: i64,
    pub bvid: String,
    pub title: String,
    pub pic: Option<String>,
    pub duration: Option<i64>,
    pub owner: Option<FavoriteUpper>,
    pub stat: Option<WatchLaterStat>,
}

#[derive(Debug, Clone)]
pub struct WatchLaterStat {
    pub view: Option<i64>,
}

#[derive(Debug, Clone)]
pub struct CollectedFolderData {
    pub count: i64,
    pub list: Vec<CollectedFolder>,
    pub has_more: Option<bool>,
}

#[derive(Debug, Clone)]
pub struct CollectedFolder {
    pub id: i64,
    pub mid: i64,
    pub title: String,
    pub media_count: Option<i32>,
    pub state: Option<i32>,
}

#[derive(Debug, Clone)]
pub struct SeasonArchivesData {
    pub archives: Vec<SeasonArchive>,
    pub page: SeasonPage,
}

#[derive(Debug, Clone)]
pub struct SeasonArchive {
    pub aid: i64,
    pub bvid: String,
    pub title: String,
    pub pic: Option<String>,
    pub duration: Option<i64>,
    pub stat: Option<SeasonStat>,
}

#[derive(Debug, Clone)]
pub struct SeasonStat {
    pub view: Option<i64>,
}

#[derive(Debug, Clone)]
pub struct SeasonPage {
    pub page_num: i32,
    pub total: i64,
}

} // verus!
