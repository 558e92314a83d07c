//! The catalog of Bilibili CDN hosts: hosts read out of published host
//! lists, and which of them serve from outside mainland China.

use vstd::prelude::*;
use crate::text;

verus! {

/// Where the client is.
#[derive(Debug, Clone, Copy, PartialEq, Eq, Structural)]
pub enum Region {
    MainlandChina,
    Overseas,
}

/// The hosts known to serve from outside mainland China.
pub open spec fn overseas_hosts() -> Seq<Seq<char>> {
    seq![
        "upos-hz-mirrorakam.akamaized.net"@,
        "upos-sz-mirroraliov.bilivideo.com"@,
        "upos-sz-mirrorcosov.bilivideo.com"@,
        "upos-sz-mirrorhwov.bilivideo.com"@,
        "cn-hk-eq-bcache-01.bilivideo.com"@,
    ]
}

/// Whether `host` is one of the overseas hosts.
pub fn is_overseas_host(host: &str) -> (res: bool)
    ensures
        res == overseas_hosts().contains(host@),
{
    let r = text::str_eq(host, "upos-hz-mirrorakam.akamaized.net")
        || text::str_eq(host, "upos-sz-mirroraliov.bilivideo.com")
        || text::str_eq(host, "upos-sz-mirrorcosov.bilivideo.com")
        || text::str_eq(host, "upos-sz-mirrorhwov.bilivideo.com")
        || text::str_eq(host, "cn-hk-eq-bcache-01.bilivideo.com");
    proof {
        let o = overseas_hosts();
        if r {
            if host@ == o[0] { assert(o.contains(host@)); }
            else if host@ == o[1] { assert(o.contains(host@)); }
            else if host@ == o[2] { assert(o.contains(host@)); }
            else if host@ == o[3] { assert(o.contains(host@)); }
            else { assert(host@ == o[4]); assert(o.contains(host@)); }
        } else {
            assert forall|i: int| 0 <= i < o.len() implies o[i] != host@ by {}
        }
    }
    r
}

/// A character that separates tokens of a host list: anything but ASCII
/// letters, digits, `.` and `-`.
pub open spec fn is_separator(c: char) -> bool {
    !(text::is_ascii_alphanumeric(c) || c == '.' || c == '-')
}

/// The pieces of `s` between separators, empty ones included
/// (`str::split` with a char predicate).
pub open spec fn pieces(s: Seq<char>) -> Seq<Seq<char>>
    decreases s.len(),
{
    if s.len() == 0 {
        seq![seq![]]
    } else {
        let p = pieces(s.drop_last());
        if is_separator(s.last()) {
            p.push(seq![])
        } else {
            p.update(p.len() - 1, p.last().push(s.last()))
        }
    }
}

proof fn lemma_pieces_nonempty(s: Seq<char>)
    ensures
        pieces(s).len() >= 1,
    decreases s.len(),
{
    if s.len() > 0 {
        lemma_pieces_nonempty(s.drop_last());
    }
}

/// `token` ends with `.` followed by `suffix`.
pub open spec fn has_domain(token: Seq<char>, suffix: Seq<char>) -> bool {
    text::seq_ends_with(token, suffix) && token.len() > suffix.len()
        && token[token.len() - suffix.len() - 1] == '.'
}

/// A CDN host name: starts with `upos-` or `proxy-`, on one of Bilibili's
/// CDN domains.
pub open spec fn is_cdn_host(token: Seq<char>) -> bool {
    (text::seq_starts_with(token, "upos-"@) || text::seq_starts_with(token, "proxy-"@)) && (
    has_domain(token, "bilivideo.com"@) || has_domain(token, "bilibilivideo.com"@)
        || has_domain(token, "akamaized.net"@))
}

pub open spec fn lower(s: Seq<char>) -> Seq<char> {
    s.map_values(|c: char| text::ascii_lower(c))
}

/// The CDN hosts among `tokens`, in lower case, in order.
pub open spec fn cdn_hosts(tokens: Seq<Seq<char>>) -> Seq<Seq<char>>
    decreases tokens.len(),
{
    if tokens.len() == 0 {
        seq![]
    } else {
        cdn_hosts(tokens.drop_last()) + if is_cdn_host(tokens.last()) {
            seq![lower(tokens.last())]
        } else {
            seq![]
        }
    }
}

fn has_domain_exec(token: &[char], suffix: &[char]) -> (res: bool)
    ensures
        res == has_domain(token@, suffix@),
{
    text::ends_with(token, suffix) && token.len() > suffix.len() && token[token.len() - suffix.len() - 1] == '.'
}

fn is_cdn_host_exec(token: &[char]) -> (res: bool)
    ensures
        res == is_cdn_host(token@),
{
    let upos = text::chars_of("upos-");
    let proxy = text::chars_of("proxy-");
    let d1 = text::chars_of("bilivideo.com");
    let d2 = text::chars_of("bilibilivideo.com");
    let d3 = text::chars_of("akamaized.net");
    (text::starts_with(token, &upos) || text::starts_with(token, &proxy))
        && (has_domain_exec(token, &d1) || has_domain_exec(token, &d2) || has_domain_exec(token, &d3))
}

/// The CDN host names in a published host list, in lower case, in order of
/// appearance.
pub fn extract_hosts(text_in: &str) -> (res: Vec<String>)
    ensures
        res@.map_values(|s: String| s@) == cdn_hosts(pieces(text_in@)),
{
    let s = text::chars_of(text_in);
    let mut out: Vec<String> = Vec::new();
    let mut token: Vec<char> = Vec::new();
    let mut i: usize = 0;
    assert(s@.take(0) =~= Seq::<char>::empty());
    assert(pieces(s@.take(0)) =~= seq![Seq::<char>::empty()]);
    assert(pieces(s@.take(0)).drop_last() =~= Seq::<Seq<char>>::empty());
    assert(out@.map_values(|s: String| s@) =~= Seq::<Seq<char>>::empty());
    while i < s.len()
        invariant
            i <= s.len(),
            s@ == text_in@,
            pieces(s@.take(i as int)).len() >= 1,
            token@ == pieces(s@.take(i as int)).last(),
            out@.map_values(|s: String| s@) == cdn_hosts(pieces(s@.take(i as int)).drop_last()),
        decreases s.len() - i,
    {
        let c = s[i];
        let ghost p = pieces(s@.take(i as int));
        assert(s@.take(i + 1).drop_last() =~= s@.take(i as int));
        let sep = !(text::char_is_ascii_alphanumeric(c) || c == '.' || c == '-');
        if sep {
            let ghost before = out@;
            if is_cdn_host_exec(&token) {
                let lowered = text::ascii_lowercase(&token);
                out.push(text::string_from_chars(&lowered));
                assert(out@.map_values(|s: String| s@) =~= before.map_values(|s: String| s@).push(lower(token@)));
            } else {
                assert(out@.map_values(|s: String| s@) =~= before.map_values(|s: String| s@) + Seq::<Seq<char>>::empty());
            }
            token = Vec::new();
            assert(pieces(s@.take(i + 1)) == p.push(seq![]));
            assert(p.push(seq![]).drop_last() =~= p);
            assert(p.drop_last().push(p.last()) =~= p);
        } else {
            token.push(c);
            assert(pieces(s@.take(i + 1)) == p.update(p.len() - 1, p.last().push(c)));
            assert(p.update(p.len() - 1, p.last().push(c)).drop_last() =~= p.drop_last());
        }
        i = i + 1;
    }
    assert(s@.take(s.len() as int) =~= s@);
    let ghost p = pieces(s@);
    let ghost before = out@;
    if is_cdn_host_exec(&token) {
        let lowered = text::ascii_lowercase(&token);
        out.push(text::string_from_chars(&lowered));
        assert(out@.map_values(|s: String| s@) =~= before.map_values(|s: String| s@).push(lower(token@)));
    } else {
        assert(out@.map_values(|s: String| s@) =~= before.map_values(|s: String| s@) + Seq::<Seq<char>>::empty());
    }
    assert(p.drop_last().push(p.last()) =~= p);
    out
}

// ---------------------------------------------------------------------------
// The cached catalog
// ---------------------------------------------------------------------------

/// How long the catalog and the region are trusted before they are looked
/// up again, in seconds.
pub const REFRESH_SECS: i64 = 86400;

/// The hosts in mainland China that the catalog always holds.
pub open spec fn domestic_hosts() -> Seq<Seq<char>> {
    seq![
        "upos-sz-mirrorali.bilivideo.com"@,
        "upos-sz-mirroralib.bilivideo.com"@,
        "upos-sz-mirroralio1.bilivideo.com"@,
        "upos-sz-mirrorcos.bilivideo.com"@,
        "upos-sz-mirrorcosb.bilivideo.com"@,
        "upos-sz-mirrorcoso1.bilivideo.com"@,
        "upos-sz-mirrorhw.bilivideo.com"@,
        "upos-sz-mirrorhwb.bilivideo.com"@,
        "upos-sz-mirrorhwo1.bilivideo.com"@,
        "upos-sz-mirror08c.bilivideo.com"@,
        "upos-sz-mirror08h.bilivideo.com"@,
        "upos-sz-mirror08ct.bilivideo.com"@,
        "upos-tf-all-hw.bilivideo.com"@,
        "upos-tf-all-tx.bilivideo.com"@,
    ]
}

/// `a` comes before `b` in the order of `str`: by code points, a proper
/// prefix first.
pub open spec fn lex_lt(a: Seq<char>, b: Seq<char>) -> bool
    decreases a.len(),
{
    if a.len() == 0 {
        b.len() > 0
    } else if b.len() == 0 {
        false
    } else if a[0] != b[0] {
        a[0] < b[0]
    } else {
        lex_lt(a.drop_first(), b.drop_first())
    }
}

/// No text comes before itself.
pub proof fn lemma_lex_irreflexive(a: Seq<char>)
    ensures
        !lex_lt(a, a),
    decreases a.len(),
{
    if a.len() > 0 {
        lemma_lex_irreflexive(a.drop_first());
    }
}

/// Of two texts, they are equal or one comes first.
pub proof fn lemma_lex_total(a: Seq<char>, b: Seq<char>)
    ensures
        a == b || lex_lt(a, b) || lex_lt(b, a),
    decreases a.len(),
{
    if a.len() > 0 && b.len() > 0 && a[0] == b[0] {
        lemma_lex_total(a.drop_first(), b.drop_first());
        if a.drop_first() == b.drop_first() {
            assert(a =~= seq![a[0]] + a.drop_first());
            assert(b =~= seq![b[0]] + b.drop_first());
        }
    } else if a.len() == 0 && b.len() == 0 {
        assert(a =~= b);
    }
}

/// The order of texts is transitive.
pub proof fn lemma_lex_transitive(a: Seq<char>, b: Seq<char>, c: Seq<char>)
    requires
        lex_lt(a, b),
        lex_lt(b, c),
    ensures
        lex_lt(a, c),
    decreases a.len(),
{
    if a.len() > 0 && b.len() > 0 && c.len() > 0 && a[0] == b[0] && b[0] == c[0] {
        lemma_lex_transitive(a.drop_first(), b.drop_first(), c.drop_first());
    }
}

/// Strictly increasing: sorted, and no host twice.
pub open spec fn strictly_sorted(s: Seq<Seq<char>>) -> bool {
    forall|i: int, j: int| 0 <= i < j < s.len() ==> lex_lt(#[trigger] s[i], #[trigger] s[j])
}

/// The `str` order of two texts.
pub fn text_lt(a: &str, b: &str) -> (res: bool)
    ensures
        res == lex_lt(a@, b@),
{
    let x = text::chars_of(a);
    let y = text::chars_of(b);
    let mut i: usize = 0;
    assert(x@.skip(0) =~= x@);
    assert(y@.skip(0) =~= y@);
    while i < x.len() && i < y.len() && x[i] == y[i]
        invariant
            i <= x.len(),
            i <= y.len(),
            lex_lt(x@, y@) == lex_lt(x@.skip(i as int), y@.skip(i as int)),
        decreases x.len() - i,
    {
        assert(x@.skip(i as int).drop_first() =~= x@.skip(i + 1));
        assert(y@.skip(i as int).drop_first() =~= y@.skip(i + 1));
        i = i + 1;
    }
    proof {
        if i < x.len() {
            assert(x@.skip(i as int)[0] == x@[i as int]);
        }
        if i < y.len() {
            assert(y@.skip(i as int)[0] == y@[i as int]);
        }
    }
    if i == x.len() {
        i < y.len()
    } else if i == y.len() {
        false
    } else {
        x[i] < y[i]
    }
}

proof fn lemma_push_to_set(s: Seq<Seq<char>>, x: Seq<char>)
    ensures
        s.push(x).to_set() == s.to_set().insert(x),
{
    broadcast use vstd::set::group_set_axioms;
    assert forall|y: Seq<char>| s.push(x).contains(y) <==> (s.contains(y) || y == x) by {
        if s.push(x).contains(y) {
            let k = choose|k: int| 0 <= k < s.push(x).len() && s.push(x)[k] == y;
            if k < s.len() {
                assert(s[k] == y);
            }
        }
        if s.contains(y) {
            let k = choose|k: int| 0 <= k < s.len() && s[k] == y;
            assert(s.push(x)[k] == y);
        }
        if y == x {
            assert(s.push(x)[s.len() as int] == y);
        }
    }
    assert forall|y: Seq<char>| #[trigger] s.push(x).to_set().contains(y) == s.to_set().insert(x).contains(y) by {
        assert(s.push(x).to_set().contains(y) == s.push(x).contains(y));
        assert(s.to_set().contains(y) == s.contains(y));
    }
    assert(s.push(x).to_set() =~= s.to_set().insert(x));
}

/// Host names, each once, in the order of `str`.
pub struct HostSet {
    hosts: Vec<String>,
}

impl View for HostSet {
    type V = Seq<Seq<char>>;

    closed spec fn view(&self) -> Seq<Seq<char>> {
        text::string_views(self.hosts@)
    }
}

impl HostSet {
    #[verifier::type_invariant]
    closed spec fn inv(self) -> bool {
        strictly_sorted(text::string_views(self.hosts@))
    }

    /// No hosts.
    pub fn new() -> (res: HostSet)
        ensures
            res@ == Seq::<Seq<char>>::empty(),
    {
        let res = HostSet { hosts: Vec::new() };
        assert(text::string_views(res.hosts@) =~= Seq::<Seq<char>>::empty());
        res
    }

    /// The hosts, in order.
    pub fn hosts(&self) -> (res: &Vec<String>)
        ensures
            text::string_views(res@) == self@,
            strictly_sorted(self@),
    {
        proof { use_type_invariant(self); }
        &self.hosts
    }

    /// Adds `host` unless it is there already.
    pub fn insert(&mut self, host: &str)
        ensures
            strictly_sorted(final(self)@),
            final(self)@.to_set() == old(self)@.to_set().insert(host@),
    {
        proof { use_type_invariant(&*self); }
        let ghost old_hosts = text::string_views(self.hosts@);
        let mut pos: usize = 0;
        while pos < self.hosts.len() && text_lt(self.hosts[pos].as_str(), host)
            invariant
                pos <= self.hosts@.len(),
                old_hosts == text::string_views(self.hosts@),
                strictly_sorted(old_hosts),
                forall|k: int| 0 <= k < pos ==> lex_lt(#[trigger] old_hosts[k], host@),
            decreases self.hosts.len() - pos,
        {
            pos = pos + 1;
        }
        if pos < self.hosts.len() && text::str_eq(self.hosts[pos].as_str(), host) {
            assert(old_hosts[pos as int] == host@);
            assert(old_hosts.to_set().insert(host@) =~= old_hosts.to_set());
            return;
        }
        let mut hosts: Vec<String> = Vec::new();
        std::mem::swap(&mut hosts, &mut self.hosts);
        let ghost before = hosts@;
        hosts.insert(pos, text::to_owned_string(host));
        let ghost new_hosts = text::string_views(hosts@);
        assert(new_hosts =~= old_hosts.take(pos as int).push(host@) + old_hosts.skip(pos as int));
        proof {
            if pos < old_hosts.len() {
                lemma_lex_total(old_hosts[pos as int], host@);
            }
            assert forall|i: int, j: int| 0 <= i < j < new_hosts.len() implies lex_lt(#[trigger] new_hosts[i], #[trigger] new_hosts[j]) by {
                if j < pos {
                    assert(new_hosts[i] == old_hosts[i] && new_hosts[j] == old_hosts[j]);
                } else if j == pos {
                    assert(new_hosts[i] == old_hosts[i]);
                } else if i == pos {
                    assert(new_hosts[j] == old_hosts[j - 1]);
                    if j - 1 > pos {
                        lemma_lex_transitive(host@, old_hosts[pos as int], old_hosts[j - 1]);
                    }
                } else if i < pos {
                    assert(new_hosts[i] == old_hosts[i] && new_hosts[j] == old_hosts[j - 1]);
                } else {
                    assert(new_hosts[i] == old_hosts[i - 1] && new_hosts[j] == old_hosts[j - 1]);
                }
            }
            assert forall|x: Seq<char>| new_hosts.to_set().contains(x) <==> old_hosts.to_set().insert(host@).contains(x) by {
                if new_hosts.contains(x) {
                    let k = choose|k: int| 0 <= k < new_hosts.len() && new_hosts[k] == x;
                    if k < pos {
                        assert(old_hosts[k] == x);
                    } else if k > pos {
                        assert(old_hosts[k - 1] == x);
                    }
                }
                if old_hosts.contains(x) {
                    let k = choose|k: int| 0 <= k < old_hosts.len() && old_hosts[k] == x;
                    if k < pos {
                        assert(new_hosts[k] == x);
                    } else {
                        assert(new_hosts[k + 1] == x);
                    }
                }
                if x == host@ {
                    assert(new_hosts[pos as int] == x);
                }
            }
            assert(new_hosts.to_set() =~= old_hosts.to_set().insert(host@));
        }
        self.hosts = hosts;
    }

    /// Adds each of `hosts` unless it is there already.
    pub fn extend(&mut self, hosts: &Vec<String>)
        ensures
            strictly_sorted(final(self)@),
            final(self)@.to_set() == old(self)@.to_set() + text::string_views(hosts@).to_set(),
    {
        proof { use_type_invariant(&*self); }
        let ghost start = self@.to_set();
        let mut i: usize = 0;
        assert(text::string_views(hosts@).take(0).to_set() =~= Set::<Seq<char>>::empty());
        assert(start + Set::<Seq<char>>::empty() =~= start);
        while i < hosts.len()
            invariant
                i <= hosts.len(),
                strictly_sorted(self@),
                self@.to_set() == start + text::string_views(hosts@).take(i as int).to_set(),
            decreases hosts.len() - i,
        {
            self.insert(hosts[i].as_str());
            assert(text::string_views(hosts@).take(i + 1) =~= text::string_views(hosts@).take(i as int).push(hosts@[i as int]@));
            proof { lemma_push_to_set(text::string_views(hosts@).take(i as int), hosts@[i as int]@); }
            assert(self@.to_set() =~= start + text::string_views(hosts@).take(i + 1).to_set());
            i = i + 1;
        }
        assert(text::string_views(hosts@).take(hosts.len() as int) =~= text::string_views(hosts@));
    }
}

/// What the catalog keeps between runs: when the host lists and the region
/// were last looked up, the region, and the hosts known.
pub struct CatalogCache {
    pub updated_at: i64,
    pub region_updated_at: i64,
    pub region: Option<Region>,
    pub hosts: Vec<String>,
}

/// The region of a country code: mainland China for 86.
pub open spec fn region_of(code: i64) -> Region {
    if code == 86 { Region::MainlandChina } else { Region::Overseas }
}

/// The region of the country code that the zone API reports.
pub fn region_of_country(code: i64) -> (res: Region)
    ensures
        res == region_of(code),
{
    if code == 86 { Region::MainlandChina } else { Region::Overseas }
}

/// The host lists are looked up again once a day, or when no host is known.
pub fn hosts_refresh_due(cache: &CatalogCache, now: i64) -> (res: bool)
    requires
        i64::MIN <= now - cache.updated_at <= i64::MAX,
    ensures
        res == (now - cache.updated_at >= REFRESH_SECS || cache.hosts@.len() == 0),
{
    now - cache.updated_at >= REFRESH_SECS || cache.hosts.len() == 0
}

/// The region is looked up again once a day, or when it is unknown.
pub fn region_refresh_due(cache: &CatalogCache, now: i64) -> (res: bool)
    requires
        i64::MIN <= now - cache.region_updated_at <= i64::MAX,
    ensures
        res == (now - cache.region_updated_at >= REFRESH_SECS || cache.region is None),
{
    now - cache.region_updated_at >= REFRESH_SECS || cache.region.is_none()
}

/// The hosts found in each of the fetched host lists.
pub open spec fn fetched_hosts(texts: Seq<String>) -> Set<Seq<char>>
    decreases texts.len(),
{
    if texts.len() == 0 {
        Set::empty()
    } else {
        fetched_hosts(texts.drop_last()) + cdn_hosts(pieces(texts.last()@)).to_set()
    }
}

fn push_host(v: &mut Vec<String>, host: &str)
    ensures
        text::string_views(final(v)@) == text::string_views(old(v)@).push(host@),
{
    v.push(text::to_owned_string(host));
    assert(text::string_views(v@) =~= text::string_views(old(v)@).push(host@));
}

/// The hosts that the catalog always holds.
fn builtin_hosts() -> (res: Vec<String>)
    ensures
        text::string_views(res@) == domestic_hosts() + overseas_hosts(),
{
    let mut v: Vec<String> = Vec::new();
    assert(text::string_views(v@) =~= Seq::<Seq<char>>::empty());
    push_host(&mut v, "upos-sz-mirrorali.bilivideo.com");
    push_host(&mut v, "upos-sz-mirroralib.bilivideo.com");
    push_host(&mut v, "upos-sz-mirroralio1.bilivideo.com");
    push_host(&mut v, "upos-sz-mirrorcos.bilivideo.com");
    push_host(&mut v, "upos-sz-mirrorcosb.bilivideo.com");
    push_host(&mut v, "upos-sz-mirrorcoso1.bilivideo.com");
    push_host(&mut v, "upos-sz-mirrorhw.bilivideo.com");
    push_host(&mut v, "upos-sz-mirrorhwb.bilivideo.com");
    push_host(&mut v, "upos-sz-mirrorhwo1.bilivideo.com");
    push_host(&mut v, "upos-sz-mirror08c.bilivideo.com");
    push_host(&mut v, "upos-sz-mirror08h.bilivideo.com");
    push_host(&mut v, "upos-sz-mirror08ct.bilivideo.com");
    push_host(&mut v, "upos-tf-all-hw.bilivideo.com");
    push_host(&mut v, "upos-tf-all-tx.bilivideo.com");
    push_host(&mut v, "upos-hz-mirrorakam.akamaized.net");
    push_host(&mut v, "upos-sz-mirroraliov.bilivideo.com");
    push_host(&mut v, "upos-sz-mirrorcosov.bilivideo.com");
    push_host(&mut v, "upos-sz-mirrorhwov.bilivideo.com");
    push_host(&mut v, "cn-hk-eq-bcache-01.bilivideo.com");
    assert(text::string_views(v@) =~= domestic_hosts() + overseas_hosts());
    v
}

/// Refreshes the hosts of the catalog: the built-in hosts, the hosts it
/// held, and, when host lists were fetched, the hosts found in them, each
/// once and in order; fetched lists mark the catalog as updated `now`.
pub fn refresh_hosts(cache: &mut CatalogCache, fetched: Option<&Vec<String>>, now: i64)
    ensures
        strictly_sorted(text::string_views(final(cache).hosts@)),
        text::string_views(final(cache).hosts@).to_set() == (domestic_hosts() + overseas_hosts()).to_set()
            + text::string_views(old(cache).hosts@).to_set() + match fetched {
                Some(texts) => fetched_hosts(texts@),
                None => Set::empty(),
            },
        final(cache).updated_at == if fetched is Some { now } else { old(cache).updated_at },
        final(cache).region == old(cache).region,
        final(cache).region_updated_at == old(cache).region_updated_at,
{
    let mut set = HostSet::new();
    let builtin = builtin_hosts();
    set.extend(&builtin);
    set.extend(&cache.hosts);
    let ghost kept = set@.to_set();
    assert(Seq::<Seq<char>>::empty().to_set() + text::string_views(builtin@).to_set() =~= text::string_views(builtin@).to_set());
    match fetched {
        Some(texts) => {
            let mut i: usize = 0;
            assert(texts@.take(0) =~= Seq::<String>::empty());
            assert(kept + Set::<Seq<char>>::empty() =~= kept);
            while i < texts.len()
                invariant
                    i <= texts.len(),
                    set@.to_set() == kept + fetched_hosts(texts@.take(i as int)),
                    strictly_sorted(set@),
                decreases texts.len() - i,
            {
                let found = extract_hosts(texts[i].as_str());
                set.extend(&found);
                assert(texts@.take(i + 1).drop_last() =~= texts@.take(i as int));
                assert(text::string_views(found@) == found@.map_values(|s: String| s@));
                assert(set@.to_set() =~= kept + fetched_hosts(texts@.take(i + 1)));
                i = i + 1;
            }
            assert(texts@.take(texts.len() as int) =~= texts@);
            cache.updated_at = now;
        },
        None => {
            assert(kept + Set::<Seq<char>>::empty() =~= kept);
        },
    }
    let hosts = set.hosts();
    let mut out: Vec<String> = Vec::new();
    let mut i: usize = 0;
    while i < hosts.len()
        invariant
            i <= hosts.len(),
            text::string_views(out@) == text::string_views(hosts@).take(i as int),
        decreases hosts.len() - i,
    {
        let ghost before = out@;
        let h = hosts[i].clone();
        out.push(h);
        assert(text::string_views(out@) =~= text::string_views(before).push(hosts@[i as int]@));
        assert(text::string_views(hosts@).take(i + 1) =~= text::string_views(hosts@).take(i as int).push(hosts@[i as int]@));
        i = i + 1;
    }
    assert(text::string_views(hosts@).take(hosts.len() as int) =~= text::string_views(hosts@));
    cache.hosts = out;
}

/// Records the region that a lookup found, if it found one.
pub fn apply_region(cache: &mut CatalogCache, country_code: Option<i64>, now: i64)
    ensures
        match country_code {
            Some(code) => final(cache).region == Some(region_of(code)) && final(cache).region_updated_at == now,
            None => final(cache).region == old(cache).region
                && final(cache).region_updated_at == old(cache).region_updated_at,
        },
        final(cache).hosts@ == old(cache).hosts@,
        final(cache).updated_at == old(cache).updated_at,
{
    if let Some(code) = country_code {
        cache.region = Some(region_of_country(code));
        cache.region_updated_at = now;
    }
}

} // verus!
