//! The local media proxy's handling of a request, apart from the sockets
//! and the upstream fetch: reading the request head, choosing what to
//! serve, and writing the response heads.

use vstd::prelude::*;
use crate::player::generation;
use crate::player::generation_spec;
use crate::text;

verus! {

broadcast use vstd::string::group_string_axioms;

// ---------------------------------------------------------------------------
// The request head
// ---------------------------------------------------------------------------

/// Whether the bytes received hold the blank line that ends a request head.
pub open spec fn head_complete_spec(bytes: Seq<u8>) -> bool {
    exists|i: int| 0 <= i && i + 4 <= bytes.len() && #[trigger] bytes.subrange(i, i + 4) == seq![13u8, 10u8, 13u8, 10u8]
}

/// Whether the bytes received hold the blank line that ends a request head.
pub fn head_complete(bytes: &[u8]) -> (res: bool)
    ensures
        res == head_complete_spec(bytes@),
{
    if bytes.len() < 4 {
        return false;
    }
    let mut i: usize = 0;
    while i < bytes.len() - 3
        invariant
            i <= bytes.len() - 3,
            bytes.len() >= 4,
            forall|j: int| 0 <= j < i ==> #[trigger] bytes@.subrange(j, j + 4) != seq![13u8, 10u8, 13u8, 10u8],
        decreases bytes.len() - i,
    {
        if bytes[i] == 13 && bytes[i + 1] == 10 && bytes[i + 2] == 13 && bytes[i + 3] == 10 {
            assert(bytes@.subrange(i as int, i + 4) =~= seq![13u8, 10u8, 13u8, 10u8]);
            return true;
        }
        assert(bytes@.subrange(i as int, i + 4)[0] == bytes@[i as int]);
        assert(bytes@.subrange(i as int, i + 4)[1] == bytes@[i + 1]);
        assert(bytes@.subrange(i as int, i + 4)[2] == bytes@[i + 2]);
        assert(bytes@.subrange(i as int, i + 4)[3] == bytes@[i + 3]);
        i = i + 1;
    }
    false
}

/// A line without the carriage return that ended it.
pub open spec fn strip_cr(line: Seq<char>) -> Seq<char> {
    if line.len() > 0 && line.last() == '\r' { line.drop_last() } else { line }
}

/// `str::lines`: the text cut at each `\n`, a `\r` before it dropped, and
/// no empty line after a final `\n`.
pub open spec fn lines_of(s: Seq<char>) -> Seq<Seq<char>> {
    let pieces = text::split_on(s, '\n');
    let ended = pieces.drop_last().map_values(|p: Seq<char>| strip_cr(p));
    if pieces.last().len() == 0 { ended } else { ended.push(pieces.last()) }
}

/// `str::split_whitespace`: the runs of characters that are not whitespace.
pub open spec fn words(s: Seq<char>) -> Seq<Seq<char>>
    decreases s.len(),
{
    if s.len() == 0 {
        seq![]
    } else {
        let prev = words(s.drop_last());
        let c = s.last();
        if text::is_whitespace(c) {
            prev
        } else if s.len() >= 2 && !text::is_whitespace(s[s.len() - 2]) {
            prev.update(prev.len() - 1, prev.last().push(c))
        } else {
            prev.push(seq![c])
        }
    }
}

/// A header name that is `range` in any ASCII case.
pub open spec fn is_range_name(name: Seq<char>) -> bool {
    name.map_values(|c: char| text::ascii_lower(c)) == "range"@
}

/// The value, trimmed, of the first `Range` header among `lines`.
pub open spec fn range_of(lines: Seq<Seq<char>>) -> Option<Seq<char>>
    decreases lines.len(),
{
    if lines.len() == 0 {
        None
    } else {
        match text::split_once(lines[0], ':') {
            Some((name, value)) => if is_range_name(name) {
                Some(text::trim(value))
            } else {
                range_of(lines.drop_first())
            },
            None => range_of(lines.drop_first()),
        }
    }
}

/// What the proxy reads of a request: its method and path from the first
/// line (empty and `/` where missing) and its `Range` header.
pub struct ProxyRequest {
    pub method: String,
    pub path: String,
    pub range: Option<String>,
}

pub open spec fn request_spec(head: Seq<char>) -> Option<(Seq<char>, Seq<char>, Option<Seq<char>>)> {
    let lines = lines_of(head);
    if lines.len() == 0 {
        None
    } else {
        let w = words(lines[0]);
        let method = if w.len() > 0 { w[0] } else { seq![] };
        let path = if w.len() > 1 { w[1] } else { "/"@ };
        Some((method, path, range_of(lines.drop_first())))
    }
}

pub open spec fn opt_view(o: Option<String>) -> Option<Seq<char>> {
    match o {
        Some(s) => Some(s@),
        None => None,
    }
}

fn strip_cr_chars(line: &Vec<char>) -> (res: Vec<char>)
    ensures
        res@ == strip_cr(line@),
{
    if line.len() > 0 && line[line.len() - 1] == '\r' {
        text::sub_chars(line, 0, line.len() - 1)
    } else {
        text::sub_chars(line, 0, line.len())
    }
}

/// The lines of `s`.
fn lines_chars(s: &[char]) -> (res: Vec<Vec<char>>)
    ensures
        text::vecs_view(res@) == lines_of(s@),
{
    let pieces = text::split_on_char(s, '\n');
    proof { text::lemma_split_on_nonempty(s@, '\n'); }
    let ghost ps = text::vecs_view(pieces@);
    let n = pieces.len();
    let mut out: Vec<Vec<char>> = Vec::new();
    let mut i: usize = 0;
    while i + 1 < n
        invariant
            n == pieces.len(),
            n >= 1,
            i + 1 <= n,
            ps == text::vecs_view(pieces@),
            text::vecs_view(out@) == ps.take(i as int).map_values(|p: Seq<char>| strip_cr(p)),
        decreases n - i,
    {
        assert(ps[i as int] == pieces@[i as int]@);
        let line = strip_cr_chars(&pieces[i]);
        let ghost before = out@;
        let ghost line_view = line@;
        out.push(line);
        assert(text::vecs_view(out@) =~= text::vecs_view(before).push(line_view));
        assert(ps.take(i + 1) =~= ps.take(i as int).push(ps[i as int]));
        assert(ps.take(i + 1).map_values(|p: Seq<char>| strip_cr(p)) =~= ps.take(i as int).map_values(
            |p: Seq<char>| strip_cr(p),
        ).push(strip_cr(ps[i as int])));
        assert(text::vecs_view(out@) =~= ps.take(i + 1).map_values(|p: Seq<char>| strip_cr(p)));
        i = i + 1;
    }
    assert(ps.take(n - 1) =~= ps.drop_last());
    if pieces[n - 1].len() > 0 {
        let last = text::sub_chars(&pieces[n - 1], 0, pieces[n - 1].len());
        assert(last@ =~= pieces@[n - 1]@);
        assert(ps.last() == pieces@[n - 1]@);
        let ghost before = out@;
        let ghost last_view = last@;
        out.push(last);
        assert(text::vecs_view(out@) =~= text::vecs_view(before).push(last_view));
        assert(text::vecs_view(out@) =~= ps.drop_last().map_values(|p: Seq<char>| strip_cr(p)).push(ps.last()));
    }
    out
}

/// The words of `s`.
fn words_chars(s: &[char]) -> (res: Vec<Vec<char>>)
    ensures
        text::vecs_view(res@) == words(s@),
{
    let mut out: Vec<Vec<char>> = Vec::new();
    let mut in_word = false;
    let mut i: usize = 0;
    assert(s@.take(0) =~= Seq::<char>::empty());
    while i < s.len()
        invariant
            i <= s.len(),
            text::vecs_view(out@) == words(s@.take(i as int)),
            in_word == (i > 0 && !text::is_whitespace(s@[i - 1])),
            in_word ==> out@.len() > 0,
        decreases s.len() - i,
    {
        let c = s[i];
        assert(s@.take(i + 1).drop_last() =~= s@.take(i as int));
        if text::char_is_whitespace(c) {
            in_word = false;
        } else if in_word {
            let mut last = out.pop().unwrap();
            let ghost before_last = last@;
            last.push(c);
            out.push(last);
            assert(text::vecs_view(out@) =~= words(s@.take(i as int)).update(
                words(s@.take(i as int)).len() - 1, before_last.push(c)));
        } else {
            let mut w: Vec<char> = Vec::new();
            w.push(c);
            out.push(w);
            in_word = true;
            assert(text::vecs_view(out@) =~= words(s@.take(i as int)).push(seq![c]));
        }
        i = i + 1;
    }
    assert(s@.take(s.len() as int) =~= s@);
    out
}

/// Whether `name` is `range` in any ASCII case.
fn range_name(name: &[char]) -> (res: bool)
    ensures
        res == is_range_name(name@),
{
    let lower = text::ascii_lowercase(name);
    let range = text::chars_of("range");
    proof {
        reveal_strlit("range");
    }
    if lower.len() != range.len() {
        assert(lower@.len() != "range"@.len());
        return false;
    }
    let mut i: usize = 0;
    while i < lower.len()
        invariant
            i <= lower.len(),
            lower.len() == range.len(),
            range@ == "range"@,
            lower@ == name@.map_values(|c: char| text::ascii_lower(c)),
            forall|j: int| 0 <= j < i ==> lower@[j] == range@[j],
        decreases lower.len() - i,
    {
        if lower[i] != range[i] {
            assert(lower@[i as int] != "range"@[i as int]);
            return false;
        }
        i = i + 1;
    }
    assert(lower@ =~= range@);
    true
}

/// The trimmed value of the first `Range` header among `lines[from..]`.
fn find_range(lines: &Vec<Vec<char>>, from: usize) -> (res: Option<String>)
    requires
        from <= lines.len(),
    ensures
        opt_view(res) == range_of(text::vecs_view(lines@).skip(from as int)),
    decreases lines.len() - from,
{
    let ghost ls = text::vecs_view(lines@).skip(from as int);
    if from == lines.len() {
        return None;
    }
    assert(ls[0] == lines@[from as int]@);
    assert(ls.drop_first() =~= text::vecs_view(lines@).skip(from + 1));
    if let Some((name, value)) = text::split_once_char(&lines[from], ':') {
        if range_name(&name) {
            let v = text::trimmed(&value);
            return Some(text::string_from_chars(&v));
        }
    }
    find_range(lines, from + 1)
}

/// Reads the method, path and `Range` header of a request head; `None` for
/// an empty request.
pub fn parse_proxy_request(head: &str) -> (res: Option<ProxyRequest>)
    ensures
        match res {
            Some(r) => request_spec(head@) == Some((r.method@, r.path@, opt_view(r.range))),
            None => request_spec(head@) is None,
        },
{
    let chars = text::chars_of(head);
    let lines = lines_chars(&chars);
    if lines.len() == 0 {
        return None;
    }
    let w = words_chars(&lines[0]);
    let method = if w.len() > 0 { text::string_from_chars(&w[0]) } else { String::new() };
    let path = if w.len() > 1 { text::string_from_chars(&w[1]) } else { text::to_owned_string("/") };
    let range = find_range(&lines, 1);
    proof {
        assert(text::vecs_view(lines@).skip(1) =~= lines_of(head@).drop_first());
        assert(text::vecs_view(lines@)[0] == lines@[0]@);
        if w.len() > 0 {
            assert(text::vecs_view(w@)[0] == w@[0]@);
        }
        if w.len() > 1 {
            assert(text::vecs_view(w@)[1] == w@[1]@);
        }
    }
    Some(ProxyRequest { method, path, range })
}

// ---------------------------------------------------------------------------
// What to serve
// ---------------------------------------------------------------------------

/// The streams the proxy serves.
#[derive(Debug, Clone, Copy, PartialEq, Eq, Structural)]
pub enum ProxyRoute {
    Video,
    Audio,
}

/// What the proxy does with a request.
#[derive(Debug, Clone, Copy, PartialEq, Eq, Structural)]
pub enum ProxyPlan {
    /// Neither GET nor HEAD: 405.
    NotAllowed,
    /// No such stream: 404.
    NotFound,
    /// Serve candidate `index` of the stream; only the head for HEAD.
    Serve { route: ProxyRoute, index: usize, head_only: bool },
}

/// The candidate the proxy serves: for video the later of the one the path
/// names by its generation and the current one, for audio the current one;
/// nothing past the end of the candidate list or for other paths.
pub open spec fn plan_spec(method: Seq<char>, path: Seq<char>, video_index: usize, video_count: usize,
    audio_index: usize, audio_count: usize) -> ProxyPlan
{
    let route = text::before(path, '?');
    let named = match generation_spec(path) { Some(g) => g, None => 0 };
    let index = if named >= video_index { named } else { video_index };
    if !(method == "GET"@ || method == "HEAD"@) {
        ProxyPlan::NotAllowed
    } else if route == "/video"@ {
        if index < video_count {
            ProxyPlan::Serve { route: ProxyRoute::Video, index, head_only: method == "HEAD"@ }
        } else {
            ProxyPlan::NotFound
        }
    } else if route == "/audio"@ {
        if audio_index < audio_count {
            ProxyPlan::Serve { route: ProxyRoute::Audio, index: audio_index, head_only: method == "HEAD"@ }
        } else {
            ProxyPlan::NotFound
        }
    } else {
        ProxyPlan::NotFound
    }
}

/// Decides what to serve for a request.
pub fn plan_request(request: &ProxyRequest, video_index: usize, video_count: usize, audio_index: usize,
    audio_count: usize) -> (res: ProxyPlan)
    ensures
        res == plan_spec(request.method@, request.path@, video_index, video_count, audio_index, audio_count),
{
    let path_chars = text::chars_of(request.path.as_str());
    let route = text::before_char(&path_chars, '?');
    let route_str = text::string_from_chars(&route);
    let named = match generation(request.path.as_str()) {
        Some(g) => g,
        None => 0,
    };
    let index = if named >= video_index { named } else { video_index };
    let method = request.method.as_str();
    let head_only = text::str_eq(method, "HEAD");
    if !(text::str_eq(method, "GET") || head_only) {
        ProxyPlan::NotAllowed
    } else if text::str_eq(route_str.as_str(), "/video") {
        if index < video_count {
            ProxyPlan::Serve { route: ProxyRoute::Video, index, head_only }
        } else {
            ProxyPlan::NotFound
        }
    } else if text::str_eq(route_str.as_str(), "/audio") {
        if audio_index < audio_count {
            ProxyPlan::Serve { route: ProxyRoute::Audio, index: audio_index, head_only }
        } else {
            ProxyPlan::NotFound
        }
    } else {
        ProxyPlan::NotFound
    }
}

// ---------------------------------------------------------------------------
// Responses
// ---------------------------------------------------------------------------

/// The bytes of a cached body that a range asks for: from its start to its
/// end, or to the last byte when it names none; `None` when that is not
/// within the cache.
pub open spec fn cached_span_spec(start: usize, requested_end: Option<usize>, len: usize) -> Option<(usize, usize)> {
    let end: int = match requested_end {
        Some(e) => e as int,
        None => if len == 0 { 0 } else { len - 1 },
    };
    if end < len && start <= end { Some((start, end as usize)) } else { None }
}

/// The span of a cached body that a range asks for.
pub fn cached_span(start: usize, requested_end: Option<usize>, len: usize) -> (res: Option<(usize, usize)>)
    ensures
        res == cached_span_spec(start, requested_end, len),
{
    let end = match requested_end {
        Some(e) => e,
        None => len.saturating_sub(1),
    };
    if end < len && start <= end { Some((start, end)) } else { None }
}

/// The head of a `206` answer served from the cache.
pub open spec fn partial_head_spec(content_type: Seq<char>, start: usize, end: usize, total: u64) -> Seq<char> {
    "HTTP/1.1 206 Partial Content\r\nConnection: close\r\nContent-Type: "@ + content_type
        + "\r\nContent-Length: "@ + text::decimal((end - start + 1) as nat)
        + "\r\nContent-Range: bytes "@ + text::decimal(start as nat) + "-"@ + text::decimal(end as nat)
        + "/"@ + text::decimal(total as nat) + "\r\nAccept-Ranges: bytes\r\n\r\n"@
}

/// The head of a `206` answer with bytes `start..=end` of a body of `total`
/// bytes.
pub fn partial_content_head(content_type: &str, start: usize, end: usize, total: u64) -> (res: String)
    requires
        start <= end < usize::MAX,
    ensures
        res@ == partial_head_spec(content_type@, start, end, total),
{
    let mut s = text::to_owned_string("HTTP/1.1 206 Partial Content\r\nConnection: close\r\nContent-Type: ");
    text::push_str(&mut s, content_type);
    text::push_str(&mut s, "\r\nContent-Length: ");
    let body_len: usize = end - start + 1;
    text::push_decimal(&mut s, body_len as u64);
    text::push_str(&mut s, "\r\nContent-Range: bytes ");
    text::push_decimal(&mut s, start as u64);
    text::push_str(&mut s, "-");
    text::push_decimal(&mut s, end as u64);
    text::push_str(&mut s, "/");
    text::push_decimal(&mut s, total);
    text::push_str(&mut s, "\r\nAccept-Ranges: bytes\r\n\r\n");
    s
}

/// Upstream answers that carry media: `200` and `206`.
pub fn is_media_status(status: u16) -> (res: bool)
    ensures
        res == (status == 200 || status == 206),
{
    status == 200 || status == 206
}

/// `name: value\r\n` for each header, in order.
pub open spec fn header_lines(headers: Seq<(String, String)>) -> Seq<char>
    decreases headers.len(),
{
    if headers.len() == 0 {
        seq![]
    } else {
        header_lines(headers.drop_last()) + headers.last().0@ + ": "@ + headers.last().1@ + "\r\n"@
    }
}

/// The head of an answer relayed from upstream: its status and reason, the
/// headers kept, and byte ranges announced.
pub fn relayed_head(status: u16, reason: &str, headers: &Vec<(String, String)>) -> (res: String)
    ensures
        res@ == "HTTP/1.1 "@ + text::decimal(status as nat) + " "@ + reason@ + "\r\nConnection: close\r\n"@
            + header_lines(headers@) + "Accept-Ranges: bytes\r\n\r\n"@,
{
    let mut s = text::to_owned_string("HTTP/1.1 ");
    text::push_decimal(&mut s, status as u64);
    text::push_str(&mut s, " ");
    text::push_str(&mut s, reason);
    text::push_str(&mut s, "\r\nConnection: close\r\n");
    let ghost head = s@;
    let mut i: usize = 0;
    while i < headers.len()
        invariant
            i <= headers.len(),
            s@ == head + header_lines(headers@.take(i as int)),
        decreases headers.len() - i,
    {
        assert(headers@.take(i + 1).drop_last() =~= headers@.take(i as int));
        text::push_str(&mut s, headers[i].0.as_str());
        text::push_str(&mut s, ": ");
        text::push_str(&mut s, headers[i].1.as_str());
        text::push_str(&mut s, "\r\n");
        i = i + 1;
    }
    assert(headers@.take(headers.len() as int) =~= headers@);
    text::push_str(&mut s, "Accept-Ranges: bytes\r\n\r\n");
    s
}

// ---------------------------------------------------------------------------
// Caching audio, and the video CDN in use
// ---------------------------------------------------------------------------

/// The largest audio body kept in memory.
pub const MAX_AUDIO_CACHE: u64 = 268435456;

/// The length of an audio body worth caching: the total of its
/// `Content-Range` for a `206`, its length for a `200`; nothing empty or
/// larger than the cache allows.
pub open spec fn cacheable_audio_length_spec(status: u16, content_range: Option<Seq<char>>,
    content_length: Option<u64>) -> Option<u64>
{
    let total = if status == 206 {
        match content_range {
            Some(r) => match crate::player::parse_content_range_spec(r) {
                Some((_, _, t)) => Some(t),
                None => None,
            },
            None => None,
        }
    } else if status == 200 {
        content_length
    } else {
        None
    };
    match total {
        Some(t) => if 0 < t && t <= MAX_AUDIO_CACHE { Some(t) } else { None },
        None => None,
    }
}

/// The length of an audio answer worth caching, from its status, its
/// `Content-Range` header and its length.
pub fn cacheable_audio_length(status: u16, content_range: Option<&str>, content_length: Option<u64>) -> (res: Option<u64>)
    ensures
        res == cacheable_audio_length_spec(status, match content_range {
            Some(r) => Some(r@),
            None => None,
        }, content_length),
{
    let total = if status == 206 {
        match content_range {
            Some(r) => match crate::player::parse_content_range(r) {
                Some((_, _, t)) => Some(t),
                None => None,
            },
            None => None,
        }
    } else if status == 200 {
        content_length
    } else {
        None
    };
    match total {
        Some(t) => if 0 < t && t <= MAX_AUDIO_CACHE { Some(t) } else { None },
        None => None,
    }
}

/// The proxy URL of video candidate `index`: the URL without its query,
/// then `?generation=index`.
pub open spec fn cdn_url(url: Seq<char>, index: usize) -> Seq<char> {
    text::before(url, '?') + "?generation="@ + text::decimal(index as nat)
}

/// Which video candidate the player is pointed at, among how many, and the
/// proxy URL it plays.
#[derive(Debug, Clone)]
pub struct VideoCdnCursor {
    pub index: usize,
    pub count: usize,
    pub video_url: String,
}

fn proxy_url(url: &str, index: usize) -> (res: String)
    ensures
        res@ == cdn_url(url@, index),
{
    let chars = text::chars_of(url);
    let base = text::before_char(&chars, '?');
    let mut s = text::string_from_chars(&base);
    text::push_str(&mut s, "?generation=");
    text::push_decimal(&mut s, index as u64);
    s
}

impl VideoCdnCursor {
    /// The candidate at `index` and its URL, when there is one.
    pub fn video_cdn(&self, index: usize) -> (res: Option<(usize, String)>)
        ensures
            match res {
                Some((i, u)) => index < self.count && i == index && u@ == cdn_url(self.video_url@, index),
                None => index >= self.count,
            },
    {
        if index < self.count {
            Some((index, proxy_url(self.video_url.as_str(), index)))
        } else {
            None
        }
    }

    /// The candidate after the current one and its URL, when there is one.
    pub fn next_video_cdn(&self) -> (res: Option<(usize, String)>)
        ensures
            match res {
                Some((i, u)) => i == self.index + 1 && i < self.count && u@ == cdn_url(self.video_url@, i),
                None => self.index + 1 >= self.count,
            },
    {
        if self.index >= self.count {
            return None;
        }
        self.video_cdn(self.index + 1)
    }

    /// Moves to candidate `next` when it lies after the current one and
    /// within the list, pointing the player's URL at it.
    pub fn commit_video_cdn(&mut self, next: usize) -> (moved: bool)
        ensures
            moved == (old(self).index < next && next < old(self).count),
            moved ==> final(self).index == next && final(self).video_url@ == cdn_url(old(self).video_url@, next),
            !moved ==> final(self).index == old(self).index && final(self).video_url@ == old(self).video_url@,
            final(self).count == old(self).count,
    {
        if next <= self.index || next >= self.count {
            return false;
        }
        let url = proxy_url(self.video_url.as_str(), next);
        self.index = next;
        self.video_url = url;
        true
    }
}


// ---------------------------------------------------------------------------
// Prefetching
// ---------------------------------------------------------------------------

/// How much of the next video candidate is fetched ahead.
pub const BACKUP_PREFIX_BYTES: usize = 1048576;

/// The total length of a backup candidate whose first bytes are worth
/// keeping: a `206` answer whose `Content-Range` starts at 0, ends no
/// earlier than it starts, and lies within the total.
pub open spec fn backup_prefix_total_spec(status: u16, content_range: Option<Seq<char>>) -> Option<u64> {
    if status == 206 {
        match content_range {
            Some(r) => match crate::player::parse_content_range_spec(r) {
                Some((start, end, total)) => if start == 0 && end >= start && total > end {
                    Some(total)
                } else {
                    None
                },
                None => None,
            },
            None => None,
        }
    } else {
        None
    }
}

pub fn backup_prefix_total(status: u16, content_range: Option<&str>) -> (res: Option<u64>)
    ensures
        res == backup_prefix_total_spec(status, match content_range {
            Some(r) => Some(r@),
            None => None,
        }),
{
    if status != 206 {
        return None;
    }
    match content_range {
        Some(r) => match crate::player::parse_content_range(r) {
            Some((start, end, total)) => if start == 0 && end >= start && total > end {
                Some(total)
            } else {
                None
            },
            None => None,
        },
        None => None,
    }
}

/// The first bytes of a body, up to a limit: each chunk is kept up to what
/// the limit leaves.
pub struct PrefixBuffer {
    bytes: Vec<u8>,
    limit: usize,
}

impl View for PrefixBuffer {
    type V = Seq<u8>;

    closed spec fn view(&self) -> Seq<u8> {
        self.bytes@
    }
}

impl PrefixBuffer {
    #[verifier::type_invariant]
    closed spec fn inv(self) -> bool {
        self.bytes@.len() <= self.limit
    }

    pub closed spec fn limit(self) -> usize {
        self.limit
    }

    /// Nothing kept yet, at most `limit` bytes to keep.
    pub fn new(limit: usize) -> (res: PrefixBuffer)
        ensures
            res@ == Seq::<u8>::empty(),
            res.limit() == limit,
    {
        PrefixBuffer { bytes: Vec::new(), limit }
    }

    /// Keeps as much of `chunk` as the limit leaves; says whether the limit
    /// is reached.
    pub fn push(&mut self, chunk: &[u8]) -> (full: bool)
        ensures
            final(self).limit() == old(self).limit(),
            final(self)@ == old(self)@ + chunk@.take(
                if chunk@.len() < old(self).limit() - old(self)@.len() {
                    chunk@.len() as int
                } else {
                    old(self).limit() - old(self)@.len()
                }),
            full == (final(self)@.len() >= old(self).limit()),
    {
        proof { use_type_invariant(&*self); }
        let remaining = self.limit - self.bytes.len();
        let take = if chunk.len() < remaining { chunk.len() } else { remaining };
        let mut bytes: Vec<u8> = Vec::new();
        std::mem::swap(&mut bytes, &mut self.bytes);
        let ghost before = bytes@;
        let limit = self.limit;
        let mut i: usize = 0;
        while i < take
            invariant
                i <= take,
                take <= chunk@.len(),
                before.len() + take <= limit,
                bytes@ == before + chunk@.take(i as int),
            decreases take - i,
        {
            bytes.push(chunk[i]);
            assert(chunk@.take(i + 1) =~= chunk@.take(i as int).push(chunk@[i as int]));
            i = i + 1;
        }
        self.bytes = bytes;
        self.bytes.len() >= self.limit
    }

    /// The bytes kept.
    pub fn bytes(&self) -> (res: &Vec<u8>)
        ensures
            res@ == self@,
    {
        &self.bytes
    }
}

/// A whole audio body of known length, collected in memory: given up, and
/// emptied, as soon as the chunks run past the length.
pub struct AudioBody {
    bytes: Vec<u8>,
    total: u64,
    overflowed: bool,
}

impl View for AudioBody {
    type V = Seq<u8>;

    closed spec fn view(&self) -> Seq<u8> {
        self.bytes@
    }
}

impl AudioBody {
    #[verifier::type_invariant]
    closed spec fn inv(self) -> bool {
        self.bytes@.len() <= self.total && (self.overflowed ==> self.bytes@.len() == 0)
    }

    pub closed spec fn total(self) -> u64 {
        self.total
    }

    pub closed spec fn overflowed(self) -> bool {
        self.overflowed
    }

    /// Nothing collected of a body of `total` bytes.
    pub fn new(total: u64) -> (res: AudioBody)
        ensures
            res@ == Seq::<u8>::empty(),
            res.total() == total,
            !res.overflowed(),
    {
        AudioBody { bytes: Vec::new(), total, overflowed: false }
    }

    /// Adds `chunk`, or gives the body up when it would run past its length;
    /// says whether to go on reading.
    pub fn push(&mut self, chunk: &[u8]) -> (go_on: bool)
        requires
            !old(self).overflowed(),
        ensures
            final(self).total() == old(self).total(),
            old(self)@.len() + chunk@.len() > old(self).total() ==> {
                &&& final(self)@ == Seq::<u8>::empty()
                &&& final(self).overflowed()
                &&& !go_on
            },
            old(self)@.len() + chunk@.len() <= old(self).total() ==> {
                &&& final(self)@ == old(self)@ + chunk@
                &&& !final(self).overflowed()
                &&& go_on
            },
    {
        proof { use_type_invariant(&*self); }
        if chunk.len() as u64 > self.total - self.bytes.len() as u64 {
            self.bytes = Vec::new();
            self.overflowed = true;
            return false;
        }
        let mut bytes: Vec<u8> = Vec::new();
        std::mem::swap(&mut bytes, &mut self.bytes);
        let ghost before = bytes@;
        let total = self.total;
        let mut i: usize = 0;
        while i < chunk.len()
            invariant
                i <= chunk@.len(),
                before.len() + chunk@.len() <= total,
                bytes@ == before + chunk@.take(i as int),
            decreases chunk.len() - i,
        {
            bytes.push(chunk[i]);
            assert(chunk@.take(i + 1) =~= chunk@.take(i as int).push(chunk@[i as int]));
            i = i + 1;
        }
        assert(chunk@.take(chunk@.len() as int) =~= chunk@);
        self.bytes = bytes;
        true
    }

    /// The whole body, once every byte has come.
    pub fn complete(self) -> (res: Option<Vec<u8>>)
        ensures
            match res {
                Some(b) => b@ == self@ && self@.len() == self.total(),
                None => self@.len() != self.total(),
            },
    {
        if self.bytes.len() as u64 == self.total {
            Some(self.bytes)
        } else {
            None
        }
    }
}

// ---------------------------------------------------------------------------
// Relaying upstream answers
// ---------------------------------------------------------------------------

/// A header relayed to the player: `Content-Length`, `Content-Range` or
/// `Content-Type`, in any ASCII case.
pub open spec fn relayed_header_name(name: Seq<char>) -> bool {
    let lower = name.map_values(|c: char| text::ascii_lower(c));
    lower == "content-length"@ || lower == "content-range"@ || lower == "content-type"@
}

/// The headers kept of an upstream answer, in order.
pub open spec fn relayed_headers_spec(headers: Seq<(String, String)>) -> Seq<(String, String)>
    decreases headers.len(),
{
    if headers.len() == 0 {
        seq![]
    } else {
        let prev = relayed_headers_spec(headers.drop_last());
        if relayed_header_name(headers.last().0@) { prev.push(headers.last()) } else { prev }
    }
}

pub open spec fn header_views(h: Seq<(String, String)>) -> Seq<(Seq<char>, Seq<char>)> {
    h.map_values(|p: (String, String)| (p.0@, p.1@))
}

fn is_relayed_header(name: &str) -> (res: bool)
    ensures
        res == relayed_header_name(name@),
{
    let lower = text::string_from_chars(&text::ascii_lowercase(&text::chars_of(name)));
    text::str_eq(lower.as_str(), "content-length") || text::str_eq(lower.as_str(), "content-range")
        || text::str_eq(lower.as_str(), "content-type")
}

/// The headers of an upstream answer that go on to the player: its length,
/// range and type, in their order.
pub fn relayed_headers(headers: &Vec<(String, String)>) -> (res: Vec<(String, String)>)
    ensures
        header_views(res@) == header_views(relayed_headers_spec(headers@)),
{
    let mut out: Vec<(String, String)> = Vec::new();
    let mut i: usize = 0;
    while i < headers.len()
        invariant
            i <= headers.len(),
            header_views(out@) == header_views(relayed_headers_spec(headers@.take(i as int))),
        decreases headers.len() - i,
    {
        let ghost before = out@;
        assert(headers@.take(i + 1).drop_last() =~= headers@.take(i as int));
        assert(headers@.take(i + 1).last() == headers@[i as int]);
        if is_relayed_header(headers[i].0.as_str()) {
            out.push((text::to_owned_string(headers[i].0.as_str()), text::to_owned_string(headers[i].1.as_str())));
            assert(header_views(out@) =~= header_views(before).push((headers@[i as int].0@, headers@[i as int].1@)));
            assert(header_views(relayed_headers_spec(headers@.take(i + 1))) =~= header_views(
                relayed_headers_spec(headers@.take(i as int))).push((headers@[i as int].0@, headers@[i as int].1@)));
        }
        i = i + 1;
    }
    assert(headers@.take(headers.len() as int) =~= headers@);
    out
}

/// What the proxy does next while fetching a stream upstream.
#[derive(Debug, Clone, Copy, PartialEq, Eq, Structural)]
pub enum FetchAction {
    /// Fetch candidate `index`.
    Fetch(usize),
    /// Relay the answer just fetched; make `Some` candidate the one in use.
    Relay(Option<usize>),
    /// No candidate answered with media: fail with the first answer.
    Fail,
}

/// The fetch of one request: the candidate in use first, then, when it
/// does not answer with media, each later candidate in order until one does.
#[derive(Debug, Clone, Copy, PartialEq, Eq, Structural)]
pub struct UpstreamFailover {
    pub first: usize,
    pub current: usize,
    pub count: usize,
}

/// The step after the candidate being fetched answered with media or not:
/// the next action, and whether the candidate in use failed (only the first
/// answer can say so).
pub open spec fn failover_step_spec(f: UpstreamFailover, media: bool) -> (UpstreamFailover, bool, FetchAction) {
    if media {
        (f, false, FetchAction::Relay(if f.current == f.first { None } else { Some(f.current) }))
    } else if f.current + 1 < f.count {
        (UpstreamFailover { current: (f.current + 1) as usize, ..f }, f.current == f.first,
            FetchAction::Fetch((f.current + 1) as usize))
    } else {
        (f, f.current == f.first, FetchAction::Fail)
    }
}

impl UpstreamFailover {
    /// The fetch of candidate `index` of `count`.
    pub fn start(index: usize, count: usize) -> (res: (UpstreamFailover, FetchAction))
        requires
            index < count,
        ensures
            res.0 == (UpstreamFailover { first: index, current: index, count }),
            res.1 == FetchAction::Fetch(index),
    {
        (UpstreamFailover { first: index, current: index, count }, FetchAction::Fetch(index))
    }

    /// Decides what follows the answer of the candidate being fetched.
    pub fn step(&mut self, media: bool) -> (res: (bool, FetchAction))
        requires
            old(self).first <= old(self).current < old(self).count,
        ensures
            (*final(self), res.0, res.1) == failover_step_spec(*old(self), media),
            final(self).first <= final(self).current < final(self).count,
    {
        if media {
            let commit = if self.current == self.first { None } else { Some(self.current) };
            return (false, FetchAction::Relay(commit));
        }
        let first_failed = self.current == self.first;
        if self.current + 1 < self.count {
            self.current = self.current + 1;
            (first_failed, FetchAction::Fetch(self.current))
        } else {
            (first_failed, FetchAction::Fail)
        }
    }
}

/// The candidates are tried in order, each at most once, and the one in use
/// is recorded as failed at most once: only when its own answer was no
/// media.
pub proof fn lemma_failover_in_order(f: UpstreamFailover, media: bool)
    requires
        f.first <= f.current < f.count,
    ensures
        failover_step_spec(f, media).2 matches FetchAction::Fetch(i) ==> i == f.current + 1 && i < f.count,
        failover_step_spec(f, media).1 ==> f.current == f.first && !media,
        failover_step_spec(f, media).2 matches FetchAction::Relay(Some(i)) ==> f.first < i && i == f.current,
{
}

} // verus!
