//! UP space profile and submission models.

use vstd::prelude::*;

verus! {

#[derive(Debug, Clone)]
pub struct SpaceInfo {
    pub mid: i64,
    pub name: String,
    pub face: Option<String>,
    pub sign: Option<String>,
    pub level: Option<i32>,
}

#[derive(Debug, Clone)]
pub struct RelationStat {
    pub mid: i64,
    pub following: Option<i64>,
    pub follower: Option<i64>,
}

/// Sort orders of an UP's submissions.
#[derive(Debug, Clone, Copy, PartialEq, Eq, Structural)]
pub enum SpaceVideoOrder {
    Latest,
    Popular,
}

impl SpaceVideoOrder {
    /// The query value of the order on the web.
    pub fn api_value(self) -> (res: &'static str)
        ensures
            res@ == (match self {
                SpaceVideoOrder::Latest => "pubdate"@,
                SpaceVideoOrder::Popular => "click"@,
            }),
    {
        match self {
            Self::Latest => "pubdate",
            Self::Popular => "click",
        }
    }
}

#[derive(Debug, Clone)]
pub struct SpaceVideoData {
    pub list: SpaceVideoList,
    pub page: SpaceVideoPage,
}

#[derive(Debug, Clone)]
pub struct SpaceVideoList {
    pub vlist: Vec<SpaceVideoItem>,
}

#[derive(Debug, Clone)]
pub struct SpaceVideoPage {
    pub count: i64,
    pub pn: Option<i32>,
    pub ps: Option<i32>,
}

#[derive(Debug, Clone)]
pub struct SpaceVideoItem {
    pub aid: i64,
    pub bvid: String,
    pub title: String,
    pub pic: Option<String>,
    pub duration: Option<i64>,
    pub play: Option<i64>,
    pub video_review: Option<i64>,
    pub created: Option<i64>,
    pub mid: Option<i64>,
    pub author: Option<String>,
}

} // verus!
