//! Bilibili live-streaming models: home-page room lists, play URLs and room
//! info, with the choices the client makes among them.

use vstd::prelude::*;
use crate::text;
use std::collections::HashSet;

verus! {

broadcast use vstd::std_specs::hash::group_hash_axioms;

/// Live room recommendation item.
#[derive(Debug, Clone)]
pub struct LiveRoom {
    pub roomid: i64,
    pub uid: i64,
    pub title: String,
    pub uname: String,
    pub face: String,
    pub cover: String,
    pub keyframe: String,
    pub online: i64,
    pub area_v2_name: String,
    pub area_v2_parent_name: String,
    pub watched_show: Option<WatchedShow>,
}

/// Watched count display info.
#[derive(Debug, Clone)]
pub struct WatchedShow {
    pub num: i64,
    pub text_small: String,
}

/// Live recommendations response data.
#[derive(Debug)]
pub struct LiveRecommendData {
    pub recommend_room_list: Vec<LiveRoom>,
}

#[derive(Debug)]
pub struct LiveHomeData {
    pub room_list: Vec<LiveHomeModule>,
}

#[derive(Debug)]
pub struct LiveHomeModule {
    pub module_info: LiveModuleInfo,
    pub list: Vec<LiveRoom>,
}

#[derive(Debug)]
pub struct LiveModuleInfo {
    pub title: String,
    pub module_type: i32,
}

/// The module of the rooms the user follows.
pub open spec fn is_followed_module(m: LiveHomeModule) -> bool {
    m.module_info.module_type == 8 || m.module_info.title@ == "我的关注"@
}

/// The module of recommended rooms.
pub open spec fn is_recommended_module(m: LiveHomeModule) -> bool {
    m.module_info.module_type == 6 || m.module_info.title@ == "推荐直播"@
}

/// The rooms of the followed modules, in order.
pub open spec fn followed_rooms(ms: Seq<LiveHomeModule>) -> Seq<LiveRoom>
    decreases ms.len(),
{
    if ms.len() == 0 {
        seq![]
    } else {
        followed_rooms(ms.drop_last()) + if is_followed_module(ms.last()) {
            ms.last().list@
        } else {
            seq![]
        }
    }
}

/// The rooms of the recommended modules that are not followed modules, in
/// order.
pub open spec fn recommended_rooms(ms: Seq<LiveHomeModule>) -> Seq<LiveRoom>
    decreases ms.len(),
{
    if ms.len() == 0 {
        seq![]
    } else {
        recommended_rooms(ms.drop_last()) + if !is_followed_module(ms.last())
            && is_recommended_module(ms.last()) {
            ms.last().list@
        } else {
            seq![]
        }
    }
}

pub open spec fn has_room(s: Seq<LiveRoom>, id: i64) -> bool {
    exists|j: int| 0 <= j < s.len() && (#[trigger] s[j]).roomid == id
}

/// `s` with every room whose id occurred earlier in `s` removed.
pub open spec fn first_per_room(s: Seq<LiveRoom>) -> Seq<LiveRoom>
    decreases s.len(),
{
    if s.len() == 0 {
        seq![]
    } else if has_room(s.drop_last(), s.last().roomid) {
        first_per_room(s.drop_last())
    } else {
        first_per_room(s.drop_last()).push(s.last())
    }
}

pub proof fn lemma_first_per_room_ids(s: Seq<LiveRoom>)
    ensures
        forall|id: i64| has_room(first_per_room(s), id) <==> has_room(s, id),
        forall|i: int, j: int| 0 <= i < j < first_per_room(s).len()
            ==> (#[trigger] first_per_room(s)[i]).roomid != (#[trigger] first_per_room(s)[j]).roomid,
    decreases s.len(),
{
    if s.len() > 0 {
        let p = s.drop_last();
        lemma_first_per_room_ids(p);
        let d = first_per_room(p);
        assert forall|id: i64| has_room(s, id) <==> (has_room(p, id) || s.last().roomid == id) by {
            if has_room(s, id) {
                let j = choose|j: int| 0 <= j < s.len() && (#[trigger] s[j]).roomid == id;
                if j < s.len() - 1 {
                    assert(p[j] == s[j]);
                }
            }
            if has_room(p, id) {
                let j = choose|j: int| 0 <= j < p.len() && (#[trigger] p[j]).roomid == id;
                assert(s[j] == p[j]);
            }
            if s.last().roomid == id {
                assert(s[s.len() - 1].roomid == id);
            }
        }
        if !has_room(p, s.last().roomid) {
            let r = d.push(s.last());
            assert forall|id: i64| has_room(r, id) <==> (has_room(d, id) || s.last().roomid == id) by {
                if has_room(r, id) {
                    let j = choose|j: int| 0 <= j < r.len() && (#[trigger] r[j]).roomid == id;
                    if j < d.len() {
                        assert(d[j] == r[j]);
                    }
                }
                if has_room(d, id) {
                    let j = choose|j: int| 0 <= j < d.len() && (#[trigger] d[j]).roomid == id;
                    assert(r[j] == d[j]);
                }
                if s.last().roomid == id {
                    assert(r[r.len() - 1].roomid == id);
                }
            }
            assert forall|i: int, j: int| 0 <= i < j < r.len() implies (#[trigger] r[i]).roomid != (#[trigger] r[j]).roomid by {
                if j == r.len() - 1 {
                    assert(r[i] == d[i]);
                    if r[i].roomid == r[j].roomid {
                        assert(has_room(d, s.last().roomid));
                    }
                } else {
                    assert(r[i] == d[i] && r[j] == d[j]);
                }
            }
        }
    }
}

impl LiveHomeData {
    /// The followed rooms, then the recommended ones, each room id once, at
    /// its first place.
    pub fn followed_then_recommended(self) -> (res: Vec<LiveRoom>)
        ensures
            res@ == first_per_room(followed_rooms(self.room_list@) + recommended_rooms(self.room_list@)),
    {
        let ghost modules = self.room_list@;
        let mut ms = self.room_list;
        let count = ms.len();
        assert(modules.len() == count);
        let mut followed: Vec<LiveRoom> = Vec::new();
        let mut recommended: Vec<LiveRoom> = Vec::new();
        let mut taken: usize = 0;
        while ms.len() > 0
            invariant
                taken + ms@.len() == modules.len(),
                modules.len() <= usize::MAX,
                ms@ == modules.skip(taken as int),
                followed@ == followed_rooms(modules.take(taken as int)),
                recommended@ == recommended_rooms(modules.take(taken as int)),
            decreases ms.len(),
        {
            let mut module = ms.remove(0);
            assert(modules.take(taken + 1).drop_last() =~= modules.take(taken as int));
            assert(modules.take(taken + 1).last() == module);
            let followed_module = module.module_info.module_type == 8
                || text::str_eq(module.module_info.title.as_str(), "我的关注");
            let recommended_module = module.module_info.module_type == 6
                || text::str_eq(module.module_info.title.as_str(), "推荐直播");
            let ghost list = module.list@;
            if followed_module {
                followed.append(&mut module.list);
                assert(recommended@ =~= recommended@ + Seq::<LiveRoom>::empty());
            } else if recommended_module {
                recommended.append(&mut module.list);
                assert(followed@ =~= followed@ + Seq::<LiveRoom>::empty());
            } else {
                assert(followed@ =~= followed@ + Seq::<LiveRoom>::empty());
                assert(recommended@ =~= recommended@ + Seq::<LiveRoom>::empty());
            }
            taken = taken + 1;
            assert(ms@ =~= modules.skip(taken as int));
        }
        assert(modules.take(taken as int) =~= modules);
        let ghost all = followed@ + recommended@;
        followed.append(&mut recommended);
        let mut rest = followed;
        let total = rest.len();
        assert(all.len() == total);
        let mut seen: HashSet<i64> = HashSet::new();
        let mut result: Vec<LiveRoom> = Vec::new();
        let mut done: usize = 0;
        while rest.len() > 0
            invariant
                done + rest@.len() == all.len(),
                all.len() <= usize::MAX,
                rest@ == all.skip(done as int),
                result@ == first_per_room(all.take(done as int)),
                forall|id: i64| seen@.contains(id) <==> has_room(all.take(done as int), id),
            decreases rest.len(),
        {
            let room = rest.remove(0);
            let ghost prefix = all.take(done as int);
            let ghost next = all.take(done + 1);
            assert(next.drop_last() =~= prefix);
            assert(next.last() == room);
            let fresh = seen.insert(room.roomid);
            if fresh {
                result.push(room);
            }
            proof {
                assert forall|id: i64| seen@.contains(id) <==> has_room(next, id) by {
                    if has_room(next, id) {
                        let j = choose|j: int| 0 <= j < next.len() && (#[trigger] next[j]).roomid == id;
                        if j < prefix.len() {
                            assert(prefix[j] == next[j]);
                        }
                    }
                    if has_room(prefix, id) {
                        let j = choose|j: int| 0 <= j < prefix.len() && (#[trigger] prefix[j]).roomid == id;
                        assert(next[j] == prefix[j]);
                    }
                    if room.roomid == id {
                        assert(next[next.len() - 1].roomid == id);
                    }
                }
            }
            done = done + 1;
            assert(rest@ =~= all.skip(done as int));
        }
        assert(all.take(done as int) =~= all);
        result
    }
}

// ---------------------------------------------------------------------------
// Play URLs
// ---------------------------------------------------------------------------

#[derive(Debug, Clone)]
pub struct LivePlayInfoData {
    pub live_status: i32,
    pub playurl_info: Option<LivePlayUrlInfo>,
}

#[derive(Debug, Clone)]
pub struct LivePlayUrlInfo {
    pub playurl: LivePlayUrl,
}

#[derive(Debug, Clone)]
pub struct LivePlayUrl {
    pub stream: Vec<LiveStream>,
}

#[derive(Debug, Clone)]
pub struct LiveStream {
    pub protocol_name: String,
    pub format: Vec<LiveFormat>,
}

#[derive(Debug, Clone)]
pub struct LiveFormat {
    pub format_name: String,
    pub codec: Vec<LiveCodec>,
}

#[derive(Debug, Clone)]
pub struct LiveCodec {
    pub codec_name: String,
    pub current_qn: i64,
    pub accept_qn: Vec<i64>,
    pub base_url: String,
    pub url_info: Vec<LiveUrlInfo>,
}

#[derive(Debug, Clone)]
pub struct LiveUrlInfo {
    pub host: String,
    pub extra: String,
}

/// Preference of a protocol and container for mpv: continuous FLV first,
/// then fMP4 and TS playlists.
pub open spec fn protocol_rank_spec(protocol: Seq<char>, format: Seq<char>) -> u8 {
    if protocol == "http_stream"@ && format == "flv"@ {
        0
    } else if protocol == "http_hls"@ && format == "fmp4"@ {
        1
    } else if protocol == "http_hls"@ && format == "ts"@ {
        2
    } else {
        3
    }
}

/// Preference of a codec: AVC, HEVC, AV1, then the rest.
pub open spec fn codec_rank_spec(codec: Seq<char>) -> u8 {
    if codec == "avc"@ {
        0
    } else if codec == "hevc"@ {
        1
    } else if codec == "av1"@ {
        2
    } else {
        3
    }
}

pub fn protocol_rank(protocol: &str, format: &str) -> (res: u8)
    ensures
        res == protocol_rank_spec(protocol@, format@),
{
    if text::str_eq(protocol, "http_stream") && text::str_eq(format, "flv") {
        0
    } else if text::str_eq(protocol, "http_hls") && text::str_eq(format, "fmp4") {
        1
    } else if text::str_eq(protocol, "http_hls") && text::str_eq(format, "ts") {
        2
    } else {
        3
    }
}

pub fn codec_rank(codec: &str) -> (res: u8)
    ensures
        res == codec_rank_spec(codec@),
{
    if text::str_eq(codec, "avc") {
        0
    } else if text::str_eq(codec, "hevc") {
        1
    } else if text::str_eq(codec, "av1") {
        2
    } else {
        3
    }
}

/// A codec offer with its place in the preference order: protocol rank
/// times four plus codec rank.
pub type Offer = (nat, LiveCodec);

pub open spec fn codec_offers(protocol: Seq<char>, format: Seq<char>, codecs: Seq<LiveCodec>) -> Seq<Offer> {
    codecs.map_values(|c: LiveCodec|
        ((protocol_rank_spec(protocol, format) as nat) * 4 + codec_rank_spec(c.codec_name@) as nat, c))
}

pub open spec fn format_offers(protocol: Seq<char>, formats: Seq<LiveFormat>) -> Seq<Offer>
    decreases formats.len(),
{
    if formats.len() == 0 {
        seq![]
    } else {
        format_offers(protocol, formats.drop_last())
            + codec_offers(protocol, formats.last().format_name@, formats.last().codec@)
    }
}

/// Every codec of every format of every stream, in the response's order.
pub open spec fn stream_offers(streams: Seq<LiveStream>) -> Seq<Offer>
    decreases streams.len(),
{
    if streams.len() == 0 {
        seq![]
    } else {
        stream_offers(streams.drop_last())
            + format_offers(streams.last().protocol_name@, streams.last().format@)
    }
}

/// The URLs of a codec: host, base URL and extra of each URL info.
pub open spec fn codec_urls(c: LiveCodec) -> Seq<Seq<char>> {
    c.url_info@.map_values(|u: LiveUrlInfo| u.host@ + c.base_url@ + u.extra@)
}

/// The URLs of the offers, in order.
pub open spec fn offer_urls(offers: Seq<Offer>) -> Seq<Seq<char>>
    decreases offers.len(),
{
    if offers.len() == 0 {
        seq![]
    } else {
        offer_urls(offers.drop_last()) + codec_urls(offers.last().1)
    }
}

pub open spec fn offers_of(data: LivePlayInfoData) -> Seq<Offer> {
    match data.playurl_info {
        Some(info) => stream_offers(info.playurl.stream@),
        None => seq![],
    }
}

/// The largest element of `s`.
pub open spec fn max_of(s: Seq<i64>) -> Option<i64>
    decreases s.len(),
{
    if s.len() == 0 {
        None
    } else {
        match max_of(s.drop_last()) {
            Some(m) => Some(if s.last() > m { s.last() } else { m }),
            None => Some(s.last()),
        }
    }
}

/// The accepted qualities of all offers, in order.
pub open spec fn accepted_qualities(offers: Seq<Offer>) -> Seq<i64>
    decreases offers.len(),
{
    if offers.len() == 0 {
        seq![]
    } else {
        accepted_qualities(offers.drop_last()) + offers.last().1.accept_qn@
    }
}

/// The offers at quality `q` with preference `rank`, in order.
pub open spec fn select(offers: Seq<Offer>, q: i64, rank: nat) -> Seq<Offer>
    decreases offers.len(),
{
    if offers.len() == 0 {
        seq![]
    } else {
        select(offers.drop_last(), q, rank) + if offers.last().0 == rank && offers.last().1.current_qn == q {
            seq![offers.last()]
        } else {
            seq![]
        }
    }
}

/// The offers at quality `q` with preference `rank` or later, ordered by
/// preference; equal preferences keep the response's order.
pub open spec fn ranked_from(offers: Seq<Offer>, q: i64, rank: nat) -> Seq<Offer>
    decreases 16 - rank,
{
    if rank >= 16 {
        seq![]
    } else {
        select(offers, q, rank) + ranked_from(offers, q, rank + 1)
    }
}

/// The offers at quality `q`, ordered by preference (a stable sort on it).
pub open spec fn ranked_offers(offers: Seq<Offer>, q: i64) -> Seq<Offer> {
    ranked_from(offers, q, 0)
}

/// The current quality of each offer.
pub open spec fn current_qualities(offers: Seq<Offer>) -> Seq<i64> {
    offers.map_values(|o: Offer| o.1.current_qn)
}

pub open spec fn offers_view<'a>(v: Seq<(u8, &'a LiveCodec)>) -> Seq<Offer> {
    v.map_values(|o: (u8, &'a LiveCodec)| (o.0 as nat, *o.1))
}

fn push_codec_offers<'a>(out: &mut Vec<(u8, &'a LiveCodec)>, protocol: &str, format: &str, codecs: &'a Vec<LiveCodec>)
    ensures
        offers_view(final(out)@) == offers_view(old(out)@) + codec_offers(protocol@, format@, codecs@),
{
    let prank = protocol_rank(protocol, format);
    let mut i: usize = 0;
    while i < codecs.len()
        invariant
            i <= codecs.len(),
            prank == protocol_rank_spec(protocol@, format@),
            offers_view(out@) == offers_view(old(out)@) + codec_offers(protocol@, format@, codecs@.take(i as int)),
        decreases codecs.len() - i,
    {
        let c = &codecs[i];
        let rank: u8 = prank * 4 + codec_rank(c.codec_name.as_str());
        let ghost before = out@;
        out.push((rank, c));
        assert(offers_view(out@) =~= offers_view(before).push((rank as nat, *c)));
        assert(codec_offers(protocol@, format@, codecs@.take(i + 1)) =~= codec_offers(protocol@, format@, codecs@.take(i as int)).push((rank as nat, *c)));
        i = i + 1;
    }
    assert(codecs@.take(codecs.len() as int) =~= codecs@);
}

fn push_format_offers<'a>(out: &mut Vec<(u8, &'a LiveCodec)>, protocol: &str, formats: &'a Vec<LiveFormat>)
    ensures
        offers_view(final(out)@) == offers_view(old(out)@) + format_offers(protocol@, formats@),
{
    let mut i: usize = 0;
    while i < formats.len()
        invariant
            i <= formats.len(),
            offers_view(out@) == offers_view(old(out)@) + format_offers(protocol@, formats@.take(i as int)),
        decreases formats.len() - i,
    {
        let f = &formats[i];
        let ghost before = out@;
        push_codec_offers(out, protocol, f.format_name.as_str(), &f.codec);
        assert(formats@.take(i + 1).drop_last() =~= formats@.take(i as int));
        assert(offers_view(before) + format_offers(protocol@, formats@.take(i as int)) + codec_offers(protocol@, f.format_name@, f.codec@)
            =~= offers_view(before) + (format_offers(protocol@, formats@.take(i as int)) + codec_offers(protocol@, f.format_name@, f.codec@)));
        i = i + 1;
    }
    assert(formats@.take(formats.len() as int) =~= formats@);
}

fn collect_offers<'a>(streams: &'a Vec<LiveStream>) -> (res: Vec<(u8, &'a LiveCodec)>)
    ensures
        offers_view(res@) == stream_offers(streams@),
{
    let mut out: Vec<(u8, &'a LiveCodec)> = Vec::new();
    assert(offers_view(out@) =~= Seq::<Offer>::empty());
    let mut i: usize = 0;
    while i < streams.len()
        invariant
            i <= streams.len(),
            offers_view(out@) == stream_offers(streams@.take(i as int)),
        decreases streams.len() - i,
    {
        let st = &streams[i];
        push_format_offers(&mut out, st.protocol_name.as_str(), &st.format);
        assert(streams@.take(i + 1).drop_last() =~= streams@.take(i as int));
        i = i + 1;
    }
    assert(streams@.take(streams.len() as int) =~= streams@);
    out
}

fn push_selected<'a>(out: &mut Vec<(u8, &'a LiveCodec)>, offers: &Vec<(u8, &'a LiveCodec)>, q: i64, rank: u8)
    ensures
        offers_view(final(out)@) == offers_view(old(out)@) + select(offers_view(offers@), q, rank as nat),
{
    let mut j: usize = 0;
    while j < offers.len()
        invariant
            j <= offers.len(),
            offers_view(out@) == offers_view(old(out)@) + select(offers_view(offers@).take(j as int), q, rank as nat),
        decreases offers.len() - j,
    {
        let o = offers[j];
        let ghost before = out@;
        let ghost pre = offers_view(offers@).take(j as int);
        let ghost next = offers_view(offers@).take(j + 1);
        assert(next.drop_last() =~= pre);
        assert(next.last() == (o.0 as nat, *o.1));
        if o.0 == rank && o.1.current_qn == q {
            out.push(o);
            assert(offers_view(out@) =~= offers_view(before).push((o.0 as nat, *o.1)));
            assert(offers_view(old(out)@) + select(pre, q, rank as nat) + seq![(o.0 as nat, *o.1)]
                =~= offers_view(old(out)@) + (select(pre, q, rank as nat) + seq![(o.0 as nat, *o.1)]));
        } else {
            assert(select(pre, q, rank as nat) + Seq::<Offer>::empty() =~= select(pre, q, rank as nat));
        }
        j = j + 1;
    }
    assert(offers_view(offers@).take(offers.len() as int) =~= offers_view(offers@));
}

fn rank_offers<'a>(offers: &Vec<(u8, &'a LiveCodec)>, q: i64) -> (res: Vec<(u8, &'a LiveCodec)>)
    ensures
        offers_view(res@) == ranked_offers(offers_view(offers@), q),
{
    let mut out: Vec<(u8, &'a LiveCodec)> = Vec::new();
    assert(offers_view(out@) =~= Seq::<Offer>::empty());
    let mut rank: u8 = 0;
    while rank < 16
        invariant
            rank <= 16,
            offers_view(out@) + ranked_from(offers_view(offers@), q, rank as nat) == ranked_offers(offers_view(offers@), q),
        decreases 16 - rank,
    {
        let ghost before = out@;
        push_selected(&mut out, offers, q, rank);
        let ghost v = offers_view(offers@);
        assert(offers_view(before) + (select(v, q, rank as nat) + ranked_from(v, q, (rank + 1) as nat))
            =~= offers_view(before) + select(v, q, rank as nat) + ranked_from(v, q, (rank + 1) as nat));
        rank = rank + 1;
    }
    assert(offers_view(out@) + Seq::<Offer>::empty() =~= offers_view(out@));
    out
}

fn push_codec_urls(out: &mut Vec<String>, c: &LiveCodec)
    ensures
        text::string_views(final(out)@) == text::string_views(old(out)@) + codec_urls(*c),
{
    let mut i: usize = 0;
    while i < c.url_info.len()
        invariant
            i <= c.url_info.len(),
            text::string_views(out@) == text::string_views(old(out)@) + codec_urls(*c).take(i as int),
        decreases c.url_info.len() - i,
    {
        let u = &c.url_info[i];
        let mut url = text::to_owned_string(u.host.as_str());
        text::push_str(&mut url, c.base_url.as_str());
        text::push_str(&mut url, u.extra.as_str());
        let ghost before = out@;
        out.push(url);
        assert(text::string_views(out@) =~= text::string_views(before).push(url@));
        assert(codec_urls(*c).take(i + 1) =~= codec_urls(*c).take(i as int).push(u.host@ + c.base_url@ + u.extra@));
        i = i + 1;
    }
    assert(codec_urls(*c).take(c.url_info.len() as int) =~= codec_urls(*c));
}

fn urls_of_offers(offers: &Vec<(u8, &LiveCodec)>) -> (res: Vec<String>)
    ensures
        text::string_views(res@) == offer_urls(offers_view(offers@)),
{
    let mut out: Vec<String> = Vec::new();
    assert(text::string_views(out@) =~= Seq::<Seq<char>>::empty());
    let mut i: usize = 0;
    while i < offers.len()
        invariant
            i <= offers.len(),
            text::string_views(out@) == offer_urls(offers_view(offers@).take(i as int)),
        decreases offers.len() - i,
    {
        push_codec_urls(&mut out, offers[i].1);
        assert(offers_view(offers@).take(i + 1).drop_last() =~= offers_view(offers@).take(i as int));
        i = i + 1;
    }
    assert(offers_view(offers@).take(offers.len() as int) =~= offers_view(offers@));
    out
}

fn max_accepted(offers: &Vec<(u8, &LiveCodec)>) -> (res: Option<i64>)
    ensures
        res == max_of(accepted_qualities(offers_view(offers@))),
{
    let mut best: Option<i64> = None;
    let mut i: usize = 0;
    let ghost v = offers_view(offers@);
    while i < offers.len()
        invariant
            i <= offers.len(),
            v == offers_view(offers@),
            best == max_of(accepted_qualities(v.take(i as int))),
        decreases offers.len() - i,
    {
        let qs = &offers[i].1.accept_qn;
        let ghost base = accepted_qualities(v.take(i as int));
        assert(v.take(i + 1).drop_last() =~= v.take(i as int));
        let mut k: usize = 0;
        while k < qs.len()
            invariant
                k <= qs.len(),
                best == max_of(base + qs@.take(k as int)),
            decreases qs.len() - k,
        {
            let x = qs[k];
            assert((base + qs@.take(k + 1)).drop_last() =~= base + qs@.take(k as int));
            best = match best {
                Some(m) => Some(if x > m { x } else { m }),
                None => Some(x),
            };
            k = k + 1;
        }
        assert(qs@.take(qs.len() as int) =~= qs@);
        i = i + 1;
    }
    assert(v.take(offers.len() as int) =~= v);
    best
}

fn max_current(offers: &Vec<(u8, &LiveCodec)>) -> (res: Option<i64>)
    ensures
        res == max_of(current_qualities(offers_view(offers@))),
{
    let mut best: Option<i64> = None;
    let mut i: usize = 0;
    let ghost v = offers_view(offers@);
    while i < offers.len()
        invariant
            i <= offers.len(),
            v == offers_view(offers@),
            best == max_of(current_qualities(v.take(i as int))),
        decreases offers.len() - i,
    {
        let x = offers[i].1.current_qn;
        assert(current_qualities(v.take(i + 1)).drop_last() =~= current_qualities(v.take(i as int)));
        best = match best {
            Some(m) => Some(if x > m { x } else { m }),
            None => Some(x),
        };
        i = i + 1;
    }
    assert(v.take(offers.len() as int) =~= v);
    best
}

/// The URLs to play at quality `q`: those of the offers at `q`, most
/// preferred first.
pub open spec fn urls_at(data: LivePlayInfoData, q: i64) -> Seq<Seq<char>> {
    offer_urls(ranked_offers(offers_of(data), q))
}

impl LivePlayInfoData {
    /// Preserve Bilibili's own stream/format/codec order. This is the safest
    /// default for playback; ranked alternatives are only failover choices.
    pub fn default_stream_urls(&self) -> (res: Vec<String>)
        ensures
            text::string_views(res@) == offer_urls(offers_of(*self)),
    {
        match &self.playurl_info {
            None => {
                let out: Vec<String> = Vec::new();
                assert(text::string_views(out@) =~= Seq::<Seq<char>>::empty());
                out
            },
            Some(info) => {
                let offers = collect_offers(&info.playurl.stream);
                urls_of_offers(&offers)
            },
        }
    }

    /// The highest quality any codec accepts.
    pub fn highest_available_quality(&self) -> (res: Option<i64>)
        ensures
            res == max_of(accepted_qualities(offers_of(*self))),
    {
        match &self.playurl_info {
            None => None,
            Some(info) => {
                let offers = collect_offers(&info.playurl.stream);
                max_accepted(&offers)
            },
        }
    }

    /// The highest quality any codec is currently granted at.
    fn current_quality(&self) -> (res: Option<i64>)
        ensures
            res == max_of(current_qualities(offers_of(*self))),
    {
        match &self.playurl_info {
            None => None,
            Some(info) => {
                let offers = collect_offers(&info.playurl.stream);
                max_current(&offers)
            },
        }
    }

    fn stream_urls_for_quality(&self, quality: i64) -> (res: Vec<String>)
        ensures
            text::string_views(res@) == urls_at(*self, quality),
    {
        match &self.playurl_info {
            None => {
                let out: Vec<String> = Vec::new();
                assert(text::string_views(out@) =~= Seq::<Seq<char>>::empty());
                proof {
                    lemma_ranked_empty(quality, 0);
                }
                out
            },
            Some(info) => {
                let offers = collect_offers(&info.playurl.stream);
                let ranked = rank_offers(&offers, quality);
                urls_of_offers(&ranked)
            },
        }
    }

    /// The URLs at the highest accepted quality, most preferred first; when
    /// that quality has none, those at the highest granted quality.
    pub fn stream_urls(&self) -> (res: Vec<String>)
        ensures
            text::string_views(res@) == stream_urls_spec(*self),
    {
        let highest = self.highest_available_quality();
        let selected = match highest {
            Some(q) => self.stream_urls_for_quality(q),
            None => Vec::new(),
        };
        if selected.len() > 0 {
            return selected;
        }
        match self.current_quality() {
            Some(q) => self.stream_urls_for_quality(q),
            None => {
                let out: Vec<String> = Vec::new();
                assert(text::string_views(out@) =~= Seq::<Seq<char>>::empty());
                out
            },
        }
    }
}

proof fn lemma_ranked_empty(q: i64, rank: nat)
    ensures
        ranked_from(Seq::<Offer>::empty(), q, rank) == Seq::<Offer>::empty(),
    decreases 16 - rank,
{
    if rank < 16 {
        lemma_ranked_empty(q, rank + 1);
        assert(select(Seq::<Offer>::empty(), q, rank) =~= Seq::<Offer>::empty());
        assert(Seq::<Offer>::empty() + Seq::<Offer>::empty() =~= Seq::<Offer>::empty());
    }
}

/// The preference of offers: continuous FLV comes before an fMP4 playlist,
/// which comes before a TS playlist, which comes before anything else,
/// whatever the codecs; among offers of equally preferred protocols, AVC
/// comes before HEVC, HEVC before AV1 and AV1 before any other codec.
pub proof fn lemma_offer_preference(p1: Seq<char>, f1: Seq<char>, c1: LiveCodec, p2: Seq<char>, f2: Seq<char>,
    c2: LiveCodec)
    ensures
        ({
            let r1 = codec_offers(p1, f1, seq![c1])[0].0;
            let r2 = codec_offers(p2, f2, seq![c2])[0].0;
            &&& protocol_rank_spec(p1, f1) < protocol_rank_spec(p2, f2) ==> r1 < r2
            &&& (protocol_rank_spec(p1, f1) == protocol_rank_spec(p2, f2)
                && codec_rank_spec(c1.codec_name@) < codec_rank_spec(c2.codec_name@)) ==> r1 < r2
            &&& (protocol_rank_spec(p1, f1) == protocol_rank_spec(p2, f2)
                && codec_rank_spec(c1.codec_name@) == codec_rank_spec(c2.codec_name@)) ==> r1 == r2
            &&& codec_offers(p1, f1, seq![c1])[0].1 == c1
        }),
        protocol_rank_spec("http_stream"@, "flv"@) < protocol_rank_spec("http_hls"@, "fmp4"@),
        protocol_rank_spec("http_hls"@, "fmp4"@) < protocol_rank_spec("http_hls"@, "ts"@),
        !((p1 == "http_stream"@ && f1 == "flv"@) || (p1 == "http_hls"@ && (f1 == "fmp4"@ || f1 == "ts"@)))
            ==> protocol_rank_spec("http_hls"@, "ts"@) < protocol_rank_spec(p1, f1),
        codec_rank_spec("avc"@) < codec_rank_spec("hevc"@),
        codec_rank_spec("hevc"@) < codec_rank_spec("av1"@),
        !(c1.codec_name@ == "avc"@ || c1.codec_name@ == "hevc"@ || c1.codec_name@ == "av1"@)
            ==> codec_rank_spec("av1"@) < codec_rank_spec(c1.codec_name@),
{
    reveal_strlit("http_stream");
    reveal_strlit("http_hls");
    reveal_strlit("flv");
    reveal_strlit("fmp4");
    reveal_strlit("ts");
    reveal_strlit("avc");
    reveal_strlit("hevc");
    reveal_strlit("av1");
    assert("http_stream"@ != "http_hls"@) by { assert("http_stream"@[5] != "http_hls"@[5]); }
    assert("fmp4"@ != "ts"@) by { assert("fmp4"@[0] != "ts"@[0]); }
    assert("avc"@ != "hevc"@) by { assert("avc"@[0] != "hevc"@[0]); }
    assert("hevc"@ != "av1"@) by { assert("hevc"@[0] != "av1"@[0]); }
    assert("avc"@ != "av1"@) by { assert("avc"@[2] != "av1"@[2]); }
}

proof fn lemma_select_rank(offers: Seq<Offer>, q: i64, rank: nat)
    ensures
        forall|i: int| 0 <= i < select(offers, q, rank).len() ==> (#[trigger] select(offers, q, rank)[i]).0 == rank
            && select(offers, q, rank)[i].1.current_qn == q,
    decreases offers.len(),
{
    if offers.len() > 0 {
        lemma_select_rank(offers.drop_last(), q, rank);
        let a = select(offers.drop_last(), q, rank);
        let r = select(offers, q, rank);
        assert forall|i: int| 0 <= i < r.len() implies (#[trigger] r[i]).0 == rank && r[i].1.current_qn == q by {
            if i < a.len() {
                assert(r[i] == a[i]);
            } else {
                assert(r[i] == offers.last());
            }
        }
    }
}

proof fn lemma_ranked_from_sorted(offers: Seq<Offer>, q: i64, rank: nat)
    ensures
        forall|i: int| 0 <= i < ranked_from(offers, q, rank).len() ==> (#[trigger] ranked_from(offers, q, rank)[i]).0 >= rank
            && ranked_from(offers, q, rank)[i].1.current_qn == q,
        forall|i: int, j: int| 0 <= i < j < ranked_from(offers, q, rank).len()
            ==> (#[trigger] ranked_from(offers, q, rank)[i]).0 <= (#[trigger] ranked_from(offers, q, rank)[j]).0,
    decreases 16 - rank,
{
    if rank < 16 {
        lemma_select_rank(offers, q, rank);
        lemma_ranked_from_sorted(offers, q, rank + 1);
        let a = select(offers, q, rank);
        let b = ranked_from(offers, q, rank + 1);
        let r = ranked_from(offers, q, rank);
        assert(r == a + b);
        assert forall|i: int| 0 <= i < r.len() implies (#[trigger] r[i]).0 >= rank && r[i].1.current_qn == q by {
            if i < a.len() {
                assert(r[i] == a[i]);
            } else {
                assert(r[i] == b[i - a.len()]);
            }
        }
        assert forall|i: int, j: int| 0 <= i < j < r.len() implies (#[trigger] r[i]).0 <= (#[trigger] r[j]).0 by {
            if j < a.len() {
                assert(r[i] == a[i]);
                assert(r[j] == a[j]);
            } else if i < a.len() {
                assert(r[i] == a[i]);
                assert(r[j] == b[j - a.len()]);
            } else {
                assert(r[i] == b[i - a.len()]);
                assert(r[j] == b[j - a.len()]);
            }
        }
    }
}

/// The offers played at a quality are the offers at that quality, most
/// preferred first: every one is at quality `q`, and none comes after an
/// offer it is preferred to.
pub proof fn lemma_ranked_offers_sorted(offers: Seq<Offer>, q: i64)
    ensures
        forall|i: int| 0 <= i < ranked_offers(offers, q).len() ==> (#[trigger] ranked_offers(offers, q)[i]).1.current_qn == q,
        forall|i: int, j: int| 0 <= i < j < ranked_offers(offers, q).len()
            ==> (#[trigger] ranked_offers(offers, q)[i]).0 <= (#[trigger] ranked_offers(offers, q)[j]).0,
{
    lemma_ranked_from_sorted(offers, q, 0);
}

/// The largest element: none of an empty sequence; otherwise one of its
/// elements, and no element is larger.
pub proof fn lemma_max_of(s: Seq<i64>)
    ensures
        s.len() == 0 <==> max_of(s) is None,
        max_of(s) matches Some(m) ==> s.contains(m) && forall|i: int| 0 <= i < s.len() ==> #[trigger] s[i] <= m,
    decreases s.len(),
{
    if s.len() > 0 {
        let rest = s.drop_last();
        lemma_max_of(rest);
        let m = max_of(s).unwrap();
        if let Some(k) = max_of(rest) {
            let j = choose|j: int| 0 <= j < rest.len() && rest[j] == k;
            assert(s[j] == rest[j]);
        }
        assert(s[s.len() - 1] == s.last());
        assert forall|i: int| 0 <= i < s.len() implies #[trigger] s[i] <= m by {
            if i < s.len() - 1 {
                assert(s[i] == rest[i]);
            }
        }
    }
}

/// The URLs `stream_urls` returns.
pub open spec fn stream_urls_spec(data: LivePlayInfoData) -> Seq<Seq<char>> {
    let selected = match max_of(accepted_qualities(offers_of(data))) {
        Some(q) => urls_at(data, q),
        None => seq![],
    };
    if selected.len() > 0 {
        selected
    } else {
        match max_of(current_qualities(offers_of(data))) {
            Some(q) => urls_at(data, q),
            None => seq![],
        }
    }
}

// ---------------------------------------------------------------------------
// Room info
// ---------------------------------------------------------------------------

/// Live room detailed info.
#[derive(Debug, Clone)]
pub struct LiveRoomInfo {
    pub uid: i64,
    pub room_id: i64,
    pub short_id: i64,
    pub title: String,
    pub description: String,
    /// 0 = not live, 1 = live, 2 = rerun.
    pub live_status: i32,
    pub area_id: i64,
    pub area_name: String,
    pub parent_area_name: String,
    /// Follower count.
    pub attention: i64,
    /// Viewers online.
    pub online: i64,
    pub user_cover: String,
    pub keyframe: String,
    pub live_time: String,
    pub tags: String,
}

impl LiveRoomInfo {
    /// The user cover, else the keyframe, else empty.
    pub fn cover_url(&self) -> (res: &str)
        ensures
            res@ == (if self.user_cover@.len() > 0 {
                self.user_cover@
            } else if self.keyframe@.len() > 0 {
                self.keyframe@
            } else {
                Seq::<char>::empty()
            }),
    {
        if !self.user_cover.as_str().is_empty() {
            self.user_cover.as_str()
        } else if !self.keyframe.as_str().is_empty() {
            self.keyframe.as_str()
        } else {
            let empty = "";
            proof {
                reveal_strlit("");
            }
            empty
        }
    }

    /// Live status text.
    pub fn status_text(&self) -> (res: &'static str)
        ensures
            res@ == (if self.live_status == 0 {
                "未开播"@
            } else if self.live_status == 1 {
                "直播中"@
            } else if self.live_status == 2 {
                "轮播中"@
            } else {
                "未知"@
            }),
    {
        if self.live_status == 0 {
            "未开播"
        } else if self.live_status == 1 {
            "直播中"
        } else if self.live_status == 2 {
            "轮播中"
        } else {
            "未知"
        }
    }
}

} // verus!
