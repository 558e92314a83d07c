//! The dynamic feed: its response models and what the feed reads of an
//! item (author, video card, pictures, text, and where its comments live).

use vstd::prelude::*;
use crate::json::JsonValue;
use crate::text;

verus! {

broadcast use vstd::string::group_string_axioms;

pub struct DynamicFeedData {
    pub items: Option<Vec<DynamicItem>>,
    pub offset: Option<String>,
    pub has_more: Option<bool>,
    pub update_num: Option<i32>,
}

/// Frequently watched uploaders.
pub struct PortalData {
    pub up_list: Option<Vec<UpListItem>>,
}

pub struct UpListItem {
    pub mid: i64,
    pub uname: String,
    pub face: String,
    pub has_update: bool,
    pub is_reserve_recall: bool,
}

pub struct DynamicItem {
    pub id_str: Option<String>,
    pub dynamic_type: Option<String>,
    pub modules: Option<DynamicModules>,
}

pub struct DynamicModules {
    pub module_author: Option<ModuleAuthor>,
    pub module_dynamic: Option<ModuleDynamic>,
}

pub struct ModuleAuthor {
    pub name: Option<String>,
    pub face: Option<String>,
    pub mid: Option<i64>,
    pub pub_time: Option<String>,
    pub pub_ts: Option<i64>,
}

pub struct ModuleDynamic {
    pub major: Option<DynamicMajor>,
    pub desc: Option<DynamicDesc>,
}

pub struct DynamicMajor {
    pub major_type: Option<String>,
    pub archive: Option<ArchiveInfo>,
    pub draw: Option<DrawInfo>,
    pub opus: Option<OpusInfo>,
}

pub struct ArchiveInfo {
    pub bvid: Option<String>,
    pub title: Option<String>,
    pub cover: Option<String>,
    pub desc: Option<String>,
    pub duration_text: Option<String>,
    pub stat: Option<ArchiveStat>,
}

pub struct ArchiveStat {
    pub play: Option<String>,
    pub danmaku: Option<String>,
}

pub struct DynamicDesc {
    pub text: Option<String>,
}

pub struct DrawInfo {
    pub id: Option<i64>,
    pub items: Option<Vec<DrawItem>>,
}

/// A picture of a picture post (its file size is kept by the application).
pub struct DrawItem {
    pub src: Option<String>,
    pub height: Option<i32>,
    pub width: Option<i32>,
}

pub struct OpusInfo {
    pub title: Option<String>,
    pub summary: Option<OpusSummary>,
    pub pics: Option<Vec<OpusPic>>,
}

pub struct OpusSummary {
    pub text: Option<String>,
    pub rich_text_nodes: Option<Vec<RichTextNode>>,
}

/// A picture of an opus post (its file size is kept by the application).
pub struct OpusPic {
    pub url: Option<String>,
    pub height: Option<i32>,
    pub width: Option<i32>,
}

pub struct RichTextNode {
    pub text: Option<String>,
    pub node_type: Option<String>,
}

pub struct FollowingsData {
    pub list: Option<Vec<FollowingUser>>,
    pub total: Option<i32>,
}

pub struct FollowingUser {
    pub mid: Option<i64>,
    pub uname: Option<String>,
    pub face: Option<String>,
    pub sign: Option<String>,
}

// ---------------------------------------------------------------------------
// Numeric fields that come as numbers, numeric strings or null
// ---------------------------------------------------------------------------

/// An optional integer field: absent or `null` is `None`, an integer number
/// in range or a string that `str::parse::<i64>` reads is its value, and
/// anything else is refused.
pub open spec fn optional_i64_spec(v: Option<JsonValue>) -> Result<Option<i64>, ()> {
    match v {
        None => Ok(None),
        Some(JsonValue::Null) => Ok(None),
        Some(JsonValue::Number(n)) => match n.as_i64 {
            Some(x) => Ok(Some(x)),
            None => Err(()),
        },
        Some(JsonValue::String(s)) => match text::parse_i64_spec(s@) {
            Some(x) => Ok(Some(x)),
            None => Err(()),
        },
        Some(_) => Err(()),
    }
}

/// As `optional_i64_spec`, and refused outside the range of `i32`.
pub open spec fn optional_i32_spec(v: Option<JsonValue>) -> Result<Option<i32>, ()> {
    match optional_i64_spec(v) {
        Ok(Some(x)) => if i32::MIN <= x <= i32::MAX { Ok(Some(x as i32)) } else { Err(()) },
        Ok(None) => Ok(None),
        Err(_) => Err(()),
    }
}

/// Reads an optional integer field that may come as a number, a numeric
/// string or `null`.
pub fn optional_i64(v: Option<&JsonValue>) -> (res: Result<Option<i64>, ()>)
    ensures
        res == optional_i64_spec(match v { Some(x) => Some(*x), None => None }),
{
    match v {
        None => Ok(None),
        Some(JsonValue::Null) => Ok(None),
        Some(JsonValue::Number(n)) => match n.as_i64 {
            Some(x) => Ok(Some(x)),
            None => Err(()),
        },
        Some(JsonValue::String(s)) => {
            let chars = text::chars_of(s.as_str());
            match text::parse_i64(&chars) {
                Some(x) => Ok(Some(x)),
                None => Err(()),
            }
        },
        Some(_) => Err(()),
    }
}

/// Reads an optional `i32` field that may come as a number, a numeric
/// string or `null`.
pub fn optional_i32(v: Option<&JsonValue>) -> (res: Result<Option<i32>, ()>)
    ensures
        res == optional_i32_spec(match v { Some(x) => Some(*x), None => None }),
{
    match optional_i64(v) {
        Ok(Some(x)) => if -2147483648 <= x && x <= 2147483647 { Ok(Some(x as i32)) } else { Err(()) },
        Ok(None) => Ok(None),
        Err(_) => Err(()),
    }
}

// ---------------------------------------------------------------------------
// What the feed reads of an item
// ---------------------------------------------------------------------------

pub open spec fn opt_str(o: Option<String>) -> Option<Seq<char>> {
    match o {
        Some(s) => Some(s@),
        None => None,
    }
}

pub open spec fn item_author(i: DynamicItem) -> Option<ModuleAuthor> {
    match i.modules {
        Some(m) => m.module_author,
        None => None,
    }
}

pub open spec fn item_dynamic(i: DynamicItem) -> Option<ModuleDynamic> {
    match i.modules {
        Some(m) => m.module_dynamic,
        None => None,
    }
}

pub open spec fn item_major(i: DynamicItem) -> Option<DynamicMajor> {
    match item_dynamic(i) {
        Some(d) => d.major,
        None => None,
    }
}

pub open spec fn item_archive(i: DynamicItem) -> Option<ArchiveInfo> {
    match item_major(i) {
        Some(m) => m.archive,
        None => None,
    }
}

pub open spec fn item_stat(i: DynamicItem) -> Option<ArchiveStat> {
    match item_archive(i) {
        Some(a) => a.stat,
        None => None,
    }
}

pub open spec fn item_draw(i: DynamicItem) -> Option<DrawInfo> {
    match item_major(i) {
        Some(m) => m.draw,
        None => None,
    }
}

pub open spec fn item_opus(i: DynamicItem) -> Option<OpusInfo> {
    match item_major(i) {
        Some(m) => m.opus,
        None => None,
    }
}

/// The major type of the item, if it has one.
pub open spec fn major_type(i: DynamicItem) -> Option<Seq<char>> {
    match item_major(i) {
        Some(m) => opt_str(m.major_type),
        None => None,
    }
}

/// The sources that the pictures of a picture post have, in order.
pub open spec fn draw_sources(items: Seq<DrawItem>) -> Seq<Seq<char>>
    decreases items.len(),
{
    if items.len() == 0 {
        seq![]
    } else {
        let prev = draw_sources(items.drop_last());
        match items.last().src {
            Some(s) => prev.push(s@),
            None => prev,
        }
    }
}

/// The URLs that the pictures of an opus post have, in order.
pub open spec fn opus_urls(pics: Seq<OpusPic>) -> Seq<Seq<char>>
    decreases pics.len(),
{
    if pics.len() == 0 {
        seq![]
    } else {
        let prev = opus_urls(pics.drop_last());
        match pics.last().url {
            Some(s) => prev.push(s@),
            None => prev,
        }
    }
}

pub open spec fn strs(v: Seq<&str>) -> Seq<Seq<char>> {
    v.map_values(|s: &str| s@)
}

/// The comment area of an item: 11 for picture and opus posts, 1 for
/// videos, 17 for the rest.
pub open spec fn comment_type_spec(i: DynamicItem) -> i32 {
    match major_type(i) {
        Some(t) => if t == "MAJOR_TYPE_DRAW"@ || t == "MAJOR_TYPE_OPUS"@ {
            11
        } else if t == "MAJOR_TYPE_ARCHIVE"@ {
            1
        } else {
            17
        },
        None => 17,
    }
}

fn opt_as_str(o: &Option<String>) -> (res: Option<&str>)
    ensures
        match res {
            Some(s) => opt_str(*o) == Some(s@),
            None => o is None,
        },
{
    match o {
        Some(s) => Some(s.as_str()),
        None => None,
    }
}

impl DynamicItem {
    fn author(&self) -> (res: Option<&ModuleAuthor>)
        ensures
            match res {
                Some(a) => item_author(*self) == Some(*a),
                None => item_author(*self) is None,
            },
    {
        match &self.modules {
            Some(m) => match &m.module_author {
                Some(a) => Some(a),
                None => None,
            },
            None => None,
        }
    }

    fn dynamic(&self) -> (res: Option<&ModuleDynamic>)
        ensures
            match res {
                Some(d) => item_dynamic(*self) == Some(*d),
                None => item_dynamic(*self) is None,
            },
    {
        match &self.modules {
            Some(m) => match &m.module_dynamic {
                Some(d) => Some(d),
                None => None,
            },
            None => None,
        }
    }

    fn major(&self) -> (res: Option<&DynamicMajor>)
        ensures
            match res {
                Some(m) => item_major(*self) == Some(*m),
                None => item_major(*self) is None,
            },
    {
        match self.dynamic() {
            Some(d) => match &d.major {
                Some(m) => Some(m),
                None => None,
            },
            None => None,
        }
    }

    fn archive(&self) -> (res: Option<&ArchiveInfo>)
        ensures
            match res {
                Some(a) => item_archive(*self) == Some(*a),
                None => item_archive(*self) is None,
            },
    {
        match self.major() {
            Some(m) => match &m.archive {
                Some(a) => Some(a),
                None => None,
            },
            None => None,
        }
    }

    fn stat(&self) -> (res: Option<&ArchiveStat>)
        ensures
            match res {
                Some(s) => item_stat(*self) == Some(*s),
                None => item_stat(*self) is None,
            },
    {
        match self.archive() {
            Some(a) => match &a.stat {
                Some(s) => Some(s),
                None => None,
            },
            None => None,
        }
    }

    fn major_type(&self) -> (res: Option<&str>)
        ensures
            match res {
                Some(t) => major_type(*self) == Some(t@),
                None => major_type(*self) is None,
            },
    {
        match self.major() {
            Some(m) => opt_as_str(&m.major_type),
            None => None,
        }
    }

    fn major_type_is(&self, t: &str) -> (res: bool)
        ensures
            res == (major_type(*self) == Some(t@)),
    {
        match self.major_type() {
            Some(m) => text::str_eq(m, t),
            None => false,
        }
    }

    /// Whether the item is a video.
    pub fn is_video(&self) -> (res: bool)
        ensures
            res == (major_type(*self) == Some("MAJOR_TYPE_ARCHIVE"@)),
    {
        self.major_type_is("MAJOR_TYPE_ARCHIVE")
    }

    /// Whether the item is a picture post.
    pub fn is_draw(&self) -> (res: bool)
        ensures
            res == (major_type(*self) == Some("MAJOR_TYPE_DRAW"@)),
    {
        self.major_type_is("MAJOR_TYPE_DRAW")
    }

    /// Whether the item is an opus post.
    pub fn is_opus(&self) -> (res: bool)
        ensures
            res == (major_type(*self) == Some("MAJOR_TYPE_OPUS"@)),
    {
        self.major_type_is("MAJOR_TYPE_OPUS")
    }

    /// The author's name, or `未知`.
    pub fn author_name(&self) -> (res: &str)
        ensures
            res@ == match item_author(*self) {
                Some(a) => match opt_str(a.name) {
                    Some(n) => n,
                    None => "未知"@,
                },
                None => "未知"@,
            },
    {
        match self.author() {
            Some(a) => match opt_as_str(&a.name) {
                Some(n) => n,
                None => "未知",
            },
            None => "未知",
        }
    }

    /// The author's avatar.
    pub fn author_face(&self) -> (res: Option<&str>)
        ensures
            match res {
                Some(f) => (match item_author(*self) {
                    Some(a) => opt_str(a.face) == Some(f@),
                    None => false,
                }),
                None => (match item_author(*self) {
                    Some(a) => a.face is None,
                    None => true,
                }),
            },
    {
        match self.author() {
            Some(a) => opt_as_str(&a.face),
            None => None,
        }
    }

    /// The author's id.
    pub fn author_mid(&self) -> (res: Option<i64>)
        ensures
            res == match item_author(*self) {
                Some(a) => a.mid,
                None => None,
            },
    {
        match self.author() {
            Some(a) => a.mid,
            None => None,
        }
    }

    /// When the item was published, as the API words it; empty if unknown.
    pub fn pub_time(&self) -> (res: &str)
        ensures
            res@ == match item_author(*self) {
                Some(a) => match opt_str(a.pub_time) {
                    Some(t) => t,
                    None => seq![],
                },
                None => seq![],
            },
    {
        proof {
            reveal_strlit("");
        }
        match self.author() {
            Some(a) => match opt_as_str(&a.pub_time) {
                Some(t) => t,
                None => "",
            },
            None => "",
        }
    }

    /// The title of the video card.
    pub fn video_title(&self) -> (res: Option<&str>)
        ensures
            match res {
                Some(t) => (match item_archive(*self) {
                    Some(a) => opt_str(a.title) == Some(t@),
                    None => false,
                }),
                None => (match item_archive(*self) {
                    Some(a) => a.title is None,
                    None => true,
                }),
            },
    {
        match self.archive() {
            Some(a) => opt_as_str(&a.title),
            None => None,
        }
    }

    /// The cover of the video card.
    pub fn video_cover(&self) -> (res: Option<&str>)
        ensures
            match res {
                Some(c) => (match item_archive(*self) {
                    Some(a) => opt_str(a.cover) == Some(c@),
                    None => false,
                }),
                None => (match item_archive(*self) {
                    Some(a) => a.cover is None,
                    None => true,
                }),
            },
    {
        match self.archive() {
            Some(a) => opt_as_str(&a.cover),
            None => None,
        }
    }

    /// The BV id of the video card.
    pub fn video_bvid(&self) -> (res: Option<&str>)
        ensures
            match res {
                Some(b) => (match item_archive(*self) {
                    Some(a) => opt_str(a.bvid) == Some(b@),
                    None => false,
                }),
                None => (match item_archive(*self) {
                    Some(a) => a.bvid is None,
                    None => true,
                }),
            },
    {
        match self.archive() {
            Some(a) => opt_as_str(&a.bvid),
            None => None,
        }
    }

    /// The play count of the video card as the API words it, or `-`.
    pub fn video_play(&self) -> (res: &str)
        ensures
            res@ == match item_stat(*self) {
                Some(s) => match opt_str(s.play) {
                    Some(p) => p,
                    None => "-"@,
                },
                None => "-"@,
            },
    {
        match self.stat() {
            Some(s) => match opt_as_str(&s.play) {
                Some(p) => p,
                None => "-",
            },
            None => "-",
        }
    }

    /// The danmaku count of the video card as the API words it, or `-`.
    pub fn video_danmaku(&self) -> (res: &str)
        ensures
            res@ == match item_stat(*self) {
                Some(s) => match opt_str(s.danmaku) {
                    Some(d) => d,
                    None => "-"@,
                },
                None => "-"@,
            },
    {
        match self.stat() {
            Some(s) => match opt_as_str(&s.danmaku) {
                Some(d) => d,
                None => "-",
            },
            None => "-",
        }
    }

    /// The duration of the video card as the API words it; empty if unknown.
    pub fn video_duration(&self) -> (res: &str)
        ensures
            res@ == match item_archive(*self) {
                Some(a) => match opt_str(a.duration_text) {
                    Some(d) => d,
                    None => seq![],
                },
                None => seq![],
            },
    {
        proof {
            reveal_strlit("");
        }
        match self.archive() {
            Some(a) => match opt_as_str(&a.duration_text) {
                Some(d) => d,
                None => "",
            },
            None => "",
        }
    }

    /// The sources of the pictures of a picture post, in order.
    pub fn draw_images(&self) -> (res: Vec<&str>)
        ensures
            strs(res@) == match item_draw(*self) {
                Some(d) => match d.items {
                    Some(items) => draw_sources(items@),
                    None => seq![],
                },
                None => seq![],
            },
    {
        let mut out: Vec<&str> = Vec::new();
        let draw = match self.major() {
            Some(m) => match &m.draw {
                Some(d) => Some(d),
                None => None,
            },
            None => None,
        };
        if let Some(d) = draw {
            if let Some(items) = &d.items {
                let mut i: usize = 0;
                while i < items.len()
                    invariant
                        i <= items.len(),
                        strs(out@) == draw_sources(items@.take(i as int)),
                    decreases items.len() - i,
                {
                    assert(items@.take(i + 1).drop_last() =~= items@.take(i as int));
                    if let Some(s) = &items[i].src {
                        out.push(s.as_str());
                        assert(strs(out@) =~= strs(out@.drop_last()).push(s@));
                    }
                    i = i + 1;
                }
                assert(items@.take(items.len() as int) =~= items@);
            }
        }
        assert(out@.len() == 0 ==> strs(out@) =~= Seq::<Seq<char>>::empty());
        out
    }

    /// The summary text of an opus post.
    pub fn opus_text(&self) -> (res: Option<&str>)
        ensures
            match res {
                Some(t) => (match item_opus(*self) {
                    Some(o) => match o.summary {
                        Some(s) => opt_str(s.text) == Some(t@),
                        None => false,
                    },
                    None => false,
                }),
                None => (match item_opus(*self) {
                    Some(o) => match o.summary {
                        Some(s) => s.text is None,
                        None => true,
                    },
                    None => true,
                }),
            },
    {
        match self.major() {
            Some(m) => match &m.opus {
                Some(o) => match &o.summary {
                    Some(s) => opt_as_str(&s.text),
                    None => None,
                },
                None => None,
            },
            None => None,
        }
    }

    /// The URLs of the pictures of an opus post, in order.
    pub fn opus_images(&self) -> (res: Vec<&str>)
        ensures
            strs(res@) == match item_opus(*self) {
                Some(o) => match o.pics {
                    Some(pics) => opus_urls(pics@),
                    None => seq![],
                },
                None => seq![],
            },
    {
        let mut out: Vec<&str> = Vec::new();
        let opus = match self.major() {
            Some(m) => match &m.opus {
                Some(o) => Some(o),
                None => None,
            },
            None => None,
        };
        if let Some(o) = opus {
            if let Some(pics) = &o.pics {
                let mut i: usize = 0;
                while i < pics.len()
                    invariant
                        i <= pics.len(),
                        strs(out@) == opus_urls(pics@.take(i as int)),
                    decreases pics.len() - i,
                {
                    assert(pics@.take(i + 1).drop_last() =~= pics@.take(i as int));
                    if let Some(u) = &pics[i].url {
                        out.push(u.as_str());
                        assert(strs(out@) =~= strs(out@.drop_last()).push(u@));
                    }
                    i = i + 1;
                }
                assert(pics@.take(pics.len() as int) =~= pics@);
            }
        }
        assert(out@.len() == 0 ==> strs(out@) =~= Seq::<Seq<char>>::empty());
        out
    }

    /// The text of the item's description.
    pub fn desc_text(&self) -> (res: Option<&str>)
        ensures
            match res {
                Some(t) => (match item_dynamic(*self) {
                    Some(d) => match d.desc {
                        Some(desc) => opt_str(desc.text) == Some(t@),
                        None => false,
                    },
                    None => false,
                }),
                None => (match item_dynamic(*self) {
                    Some(d) => match d.desc {
                        Some(desc) => desc.text is None,
                        None => true,
                    },
                    None => true,
                }),
            },
    {
        match self.dynamic() {
            Some(d) => match &d.desc {
                Some(desc) => opt_as_str(&desc.text),
                None => None,
            },
            None => None,
        }
    }

    /// The comment area code of the item.
    pub fn comment_type(&self) -> (res: i32)
        ensures
            res == comment_type_spec(*self),
    {
        match self.major_type() {
            Some(t) => {
                if text::str_eq(t, "MAJOR_TYPE_DRAW") || text::str_eq(t, "MAJOR_TYPE_OPUS") {
                    11
                } else if text::str_eq(t, "MAJOR_TYPE_ARCHIVE") {
                    1
                } else {
                    17
                }
            },
            None => 17,
        }
    }

    /// The object whose comments belong to the item: the picture set of a
    /// picture post, otherwise the dynamic id itself, read as an integer.
    pub fn comment_oid(&self, dynamic_id: &str) -> (res: Option<i64>)
        ensures
            res == if major_type(*self) == Some("MAJOR_TYPE_DRAW"@) {
                match item_draw(*self) {
                    Some(d) => d.id,
                    None => None,
                }
            } else {
                text::parse_i64_spec(dynamic_id@)
            },
    {
        if self.is_draw() {
            match self.major() {
                Some(m) => match &m.draw {
                    Some(d) => d.id,
                    None => None,
                },
                None => None,
            }
        } else {
            let chars = text::chars_of(dynamic_id);
            text::parse_i64(&chars)
        }
    }
}

/// The sources of a picture post's pictures.
pub open spec fn draw_images_spec(i: DynamicItem) -> Seq<Seq<char>> {
    match item_draw(i) {
        Some(d) => match d.items {
            Some(items) => draw_sources(items@),
            None => seq![],
        },
        None => seq![],
    }
}

/// The URLs of an opus post's pictures.
pub open spec fn opus_images_spec(i: DynamicItem) -> Seq<Seq<char>> {
    match item_opus(i) {
        Some(o) => match o.pics {
            Some(pics) => opus_urls(pics@),
            None => seq![],
        },
        None => seq![],
    }
}

/// The pictures shown on an item's detail page: those of a picture post,
/// then those of an opus post.
pub open spec fn detail_images_spec(i: DynamicItem) -> Seq<Seq<char>> {
    (if major_type(i) == Some("MAJOR_TYPE_DRAW"@) { draw_images_spec(i) } else { seq![] })
        + (if major_type(i) == Some("MAJOR_TYPE_OPUS"@) { opus_images_spec(i) } else { seq![] })
}

fn push_all(out: &mut Vec<String>, items: &Vec<&str>)
    ensures
        text::string_views(final(out)@) == text::string_views(old(out)@) + strs(items@),
{
    let ghost start = text::string_views(out@);
    let mut i: usize = 0;
    while i < items.len()
        invariant
            i <= items@.len(),
            text::string_views(out@) == start + strs(items@.take(i as int)),
        decreases items.len() - i,
    {
        let ghost before = out@;
        out.push(text::to_owned_string(items[i]));
        assert(text::string_views(out@) =~= text::string_views(before).push(items@[i as int]@));
        assert(strs(items@.take(i + 1)) =~= strs(items@.take(i as int)).push(items@[i as int]@));
        i = i + 1;
    }
    assert(items@.take(items@.len() as int) =~= items@);
}

impl DynamicItem {
    /// The pictures to show on the item's detail page.
    pub fn detail_image_urls(&self) -> (res: Vec<String>)
        ensures
            text::string_views(res@) == detail_images_spec(*self),
    {
        let mut out: Vec<String> = Vec::new();
        assert(text::string_views(out@) =~= Seq::<Seq<char>>::empty());
        if self.is_draw() {
            let images = self.draw_images();
            push_all(&mut out, &images);
        }
        let ghost mid = text::string_views(out@);
        if self.is_opus() {
            let images = self.opus_images();
            push_all(&mut out, &images);
        } else {
            assert(mid + Seq::<Seq<char>>::empty() =~= mid);
        }
        proof {
            if major_type(*self) != Some("MAJOR_TYPE_DRAW"@) {
                assert(Seq::<Seq<char>>::empty() + (if major_type(*self) == Some("MAJOR_TYPE_OPUS"@) {
                    opus_images_spec(*self)
                } else {
                    seq![]
                }) =~= text::string_views(out@));
            }
        }
        out
    }
}

/// The comment area of a feed item: picture and opus posts keep their
/// comments in area 11, videos in area 1, every other item in area 17.
pub proof fn lemma_comment_areas(i: DynamicItem)
    ensures
        major_type(i) == Some("MAJOR_TYPE_DRAW"@) ==> comment_type_spec(i) == 11,
        major_type(i) == Some("MAJOR_TYPE_OPUS"@) ==> comment_type_spec(i) == 11,
        major_type(i) == Some("MAJOR_TYPE_ARCHIVE"@) ==> comment_type_spec(i) == 1,
        !(major_type(i) == Some("MAJOR_TYPE_DRAW"@) || major_type(i) == Some("MAJOR_TYPE_OPUS"@)
            || major_type(i) == Some("MAJOR_TYPE_ARCHIVE"@)) ==> comment_type_spec(i) == 17,
{
    reveal_strlit("MAJOR_TYPE_ARCHIVE");
    reveal_strlit("MAJOR_TYPE_DRAW");
    reveal_strlit("MAJOR_TYPE_OPUS");
    assert("MAJOR_TYPE_ARCHIVE"@ != "MAJOR_TYPE_DRAW"@) by { assert("MAJOR_TYPE_ARCHIVE"@[11] != "MAJOR_TYPE_DRAW"@[11]); }
    assert("MAJOR_TYPE_ARCHIVE"@ != "MAJOR_TYPE_OPUS"@) by { assert("MAJOR_TYPE_ARCHIVE"@[11] != "MAJOR_TYPE_OPUS"@[11]); }
}

/// The pictures of a post keep their order: every picture with a source is
/// shown, in order, and those without one are left out; where all have one,
/// picture `k` is the source of item `k`.
pub proof fn lemma_draw_sources(items: Seq<DrawItem>)
    ensures
        draw_sources(items).len() <= items.len(),
        (forall|k: int| 0 <= k < items.len() ==> (#[trigger] items[k]).src is Some) ==> {
            &&& draw_sources(items).len() == items.len()
            &&& forall|k: int| 0 <= k < items.len() ==> #[trigger] draw_sources(items)[k] == items[k].src.unwrap()@
        },
        (forall|k: int| 0 <= k < items.len() ==> (#[trigger] items[k]).src is None) ==> draw_sources(items).len() == 0,
    decreases items.len(),
{
    if items.len() > 0 {
        let rest = items.drop_last();
        lemma_draw_sources(rest);
        assert forall|k: int| 0 <= k < rest.len() implies #[trigger] rest[k] == items[k] by {}
        if forall|k: int| 0 <= k < items.len() ==> (#[trigger] items[k]).src is Some {
            assert(forall|k: int| 0 <= k < rest.len() ==> (#[trigger] rest[k]).src is Some);
            assert(items[items.len() - 1].src is Some);
            assert forall|k: int| 0 <= k < items.len() implies #[trigger] draw_sources(items)[k] == items[k].src.unwrap()@ by {
                if k < items.len() - 1 {
                    assert(draw_sources(rest)[k] == rest[k].src.unwrap()@);
                }
            }
        }
        if forall|k: int| 0 <= k < items.len() ==> (#[trigger] items[k]).src is None {
            assert(forall|k: int| 0 <= k < rest.len() ==> (#[trigger] rest[k]).src is None);
            assert(items[items.len() - 1].src is None);
        }
    }
}

/// The pictures of an opus post keep their order the same way: where all
/// have a URL, picture `k` is the URL of picture `k`.
pub proof fn lemma_opus_urls(pics: Seq<OpusPic>)
    ensures
        opus_urls(pics).len() <= pics.len(),
        (forall|k: int| 0 <= k < pics.len() ==> (#[trigger] pics[k]).url is Some) ==> {
            &&& opus_urls(pics).len() == pics.len()
            &&& forall|k: int| 0 <= k < pics.len() ==> #[trigger] opus_urls(pics)[k] == pics[k].url.unwrap()@
        },
    decreases pics.len(),
{
    if pics.len() > 0 {
        let rest = pics.drop_last();
        lemma_opus_urls(rest);
        assert forall|k: int| 0 <= k < rest.len() implies #[trigger] rest[k] == pics[k] by {}
        if forall|k: int| 0 <= k < pics.len() ==> (#[trigger] pics[k]).url is Some {
            assert(forall|k: int| 0 <= k < rest.len() ==> (#[trigger] rest[k]).url is Some);
            assert(pics[pics.len() - 1].url is Some);
            assert forall|k: int| 0 <= k < pics.len() implies #[trigger] opus_urls(pics)[k] == pics[k].url.unwrap()@ by {
                if k < pics.len() - 1 {
                    assert(opus_urls(rest)[k] == rest[k].url.unwrap()@);
                }
            }
        }
    }
}

/// A numeric field may come as a number or as a numeric string: absent or
/// `null` reads as no value, an integer as itself, a string as the integer
/// it spells; anything else is refused.
pub proof fn lemma_optional_i64(v: Option<JsonValue>)
    ensures
        (v is None || v == Some(JsonValue::Null)) ==> optional_i64_spec(v) == Ok::<Option<i64>, ()>(None),
        (v matches Some(JsonValue::Number(n)) && n.as_i64 is Some)
            ==> optional_i64_spec(v) == Ok::<Option<i64>, ()>(Some(v->Some_0->Number_0.as_i64.unwrap())),
        (v matches Some(JsonValue::String(s)) && text::parse_i64_spec(s@) is Some)
            ==> optional_i64_spec(v) == Ok::<Option<i64>, ()>(text::parse_i64_spec(v->Some_0->String_0@)),
        (v matches Some(x) && (x is Bool || x is Array || x is Object)) ==> optional_i64_spec(v) is Err,
{
}

} // verus!
