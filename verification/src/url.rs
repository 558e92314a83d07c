//! URLs taken apart and rebuilt by the URL parser that `reqwest` exports.

use vstd::prelude::*;

verus! {

/// The scheme, the host where there is one, and the path of a URL.
#[derive(Debug, Clone)]
pub struct UrlParts {
    pub scheme: String,
    pub host: Option<String>,
    pub path: String,
}

pub open spec fn parts_view(p: UrlParts) -> (Seq<char>, Option<Seq<char>>, Seq<char>) {
    (p.scheme@, match p.host {
        Some(h) => Some(h@),
        None => None,
    }, p.path@)
}

/// The scheme, host and path that `reqwest::Url::parse` finds in `url`, or
/// `None` where it refuses `url`.
pub uninterp spec fn url_parts(url: Seq<char>) -> Option<(Seq<char>, Option<Seq<char>>, Seq<char>)>;

/// `reqwest::Url::parse`, read with `scheme`, `host_str` and `path`. The
/// contract ties the result to `url` by name alone: what the parser accepts
/// and how it normalises a URL is left unsaid.
#[verifier::external_body]
pub(crate) fn parse_url(url: &str) -> (res: Option<UrlParts>)
    ensures
        match res {
            Some(p) => url_parts(url@) == Some(parts_view(p)),
            None => url_parts(url@) is None,
        },
{
    match reqwest::Url::parse(url) {
        Ok(u) => Some(UrlParts {
            scheme: u.scheme().to_string(),
            host: u.host_str().map(str::to_string),
            path: u.path().to_string(),
        }),
        Err(_) => None,
    }
}

/// `url` with its host replaced by `host`, as `reqwest::Url::parse`, then
/// `set_host` and the serialisation write it, or `None` where the parser
/// refuses `url` or `set_host` refuses `host`.
pub uninterp spec fn rehosted(url: Seq<char>, host: Seq<char>) -> Option<Seq<char>>;

/// `reqwest::Url::parse`, then `set_host` with `host` and `to_string`. The
/// contract ties the result to both arguments by name alone: which hosts
/// `set_host` accepts, and the text it then writes, are left unsaid.
#[verifier::external_body]
pub(crate) fn rehost(url: &str, host: &str) -> (res: Option<String>)
    ensures
        match res {
            Some(s) => rehosted(url@, host@) == Some(s@),
            None => rehosted(url@, host@) is None,
        },
{
    let mut u = reqwest::Url::parse(url).ok()?;
    u.set_host(Some(host)).ok()?;
    Some(u.to_string())
}

} // verus!
