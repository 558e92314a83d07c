//! What the API client decides on its own: the hosts it calls, the codes it
//! accepts in a response, and the cookie and CSRF fields it sends.

use vstd::prelude::*;
use crate::json::{self, JsonValue};
use crate::text;
use crate::url;

verus! {

broadcast use vstd::string::group_string_axioms;

/// The API hosts.
#[derive(Debug, Clone, Copy, PartialEq, Eq, Structural)]
pub enum BilibiliApiDomain {
    Main,
    Passport,
}

/// The origin of each host.
pub open spec fn origin(d: BilibiliApiDomain) -> Seq<char> {
    match d {
        BilibiliApiDomain::Main => "https://api.bilibili.com"@,
        BilibiliApiDomain::Passport => "https://passport.bilibili.com"@,
    }
}

impl BilibiliApiDomain {
    /// The origin of the host.
    pub fn as_str(&self) -> (res: &'static str)
        ensures
            res@ == origin(*self),
    {
        match self {
            BilibiliApiDomain::Main => "https://api.bilibili.com",
            BilibiliApiDomain::Passport => "https://passport.bilibili.com",
        }
    }
}

/// The URL of `endpoint` on `domain`.
pub fn build_url(domain: BilibiliApiDomain, endpoint: &str) -> (res: String)
    ensures
        res@ == origin(domain) + endpoint@,
{
    let mut url = text::to_owned_string(domain.as_str());
    text::push_str(&mut url, endpoint);
    url
}

/// The envelope of every API response.
#[derive(Debug)]
pub struct ApiResponse<T> {
    pub code: i32,
    pub message: String,
    pub ttl: Option<i32>,
    pub data: Option<T>,
}

/// The keys that sign WBI requests.
#[derive(Debug, Clone)]
pub struct WbiKeys {
    pub img_key: String,
    pub sub_key: String,
}

/// An API answer with a non-zero code.
#[derive(Debug, Clone, PartialEq, Eq)]
pub struct ApiError {
    pub code: i64,
    pub message: String,
}

/// The code of a response: its `code` member as an integer, else -1.
pub open spec fn response_code(v: JsonValue) -> i64 {
    match json::member(v, "code"@) {
        Some(c) => match json::as_i64(c) {
            Some(n) => n,
            None => -1i64,
        },
        None => -1i64,
    }
}

/// The message of a response: its `message` member as a string, else
/// `unknown error`.
pub open spec fn response_message(v: JsonValue) -> Seq<char> {
    match json::member(v, "message"@) {
        Some(m) => match json::as_str(m) {
            Some(s) => s,
            None => "unknown error"@,
        },
        None => "unknown error"@,
    }
}

/// Accepts a response whose code is 0; any other code is an error with the
/// response's message.
pub fn check_code(value: &JsonValue) -> (res: Result<(), ApiError>)
    ensures
        match res {
            Ok(()) => response_code(*value) == 0,
            Err(e) => response_code(*value) != 0 && e.code == response_code(*value)
                && e.message@ == response_message(*value),
        },
{
    let code: i64 = match value.get("code") {
        Some(c) => match c.as_i64() {
            Some(n) => n,
            None => -1,
        },
        None => -1,
    };
    if code != 0 {
        let message = match value.get("message") {
            Some(m) => match m.as_str() {
                Some(s) => text::to_owned_string(s),
                None => text::to_owned_string("unknown error"),
            },
            None => text::to_owned_string("unknown error"),
        };
        return Err(ApiError { code, message });
    }
    Ok(())
}

impl ApiError {
    /// `API error (code): message`.
    pub fn describe(&self) -> (res: String)
        ensures
            res@ == "API error ("@ + text::signed_decimal(self.code as int) + "): "@ + self.message@,
    {
        let mut s = text::to_owned_string("API error (");
        text::push_signed_decimal(&mut s, self.code);
        text::push_str(&mut s, "): ");
        text::push_str(&mut s, self.message.as_str());
        s
    }
}

/// The cookie header of a logged-in session.
pub fn cookie_header(sessdata: &str, bili_jct: &str, dede_user_id: &str) -> (res: String)
    ensures
        res@ == "SESSDATA="@ + sessdata@ + "; bili_jct="@ + bili_jct@ + "; DedeUserID="@ + dede_user_id@,
{
    let mut s = text::to_owned_string("SESSDATA=");
    text::push_str(&mut s, sessdata);
    text::push_str(&mut s, "; bili_jct=");
    text::push_str(&mut s, bili_jct);
    text::push_str(&mut s, "; DedeUserID=");
    text::push_str(&mut s, dede_user_id);
    s
}

/// The value of the first cookie named `bili_jct` among `parts`, each part
/// trimmed and split at its first `=`.
pub open spec fn first_csrf(parts: Seq<Seq<char>>) -> Option<Seq<char>>
    decreases parts.len(),
{
    if parts.len() == 0 {
        None
    } else {
        match text::split_once(text::trim(parts[0]), '=') {
            Some((name, value)) => if name == "bili_jct"@ {
                Some(value)
            } else {
                first_csrf(parts.drop_first())
            },
            None => first_csrf(parts.drop_first()),
        }
    }
}

/// The CSRF token of a cookie header: the value of its `bili_jct` cookie.
pub open spec fn csrf_of(cookies: Seq<char>) -> Option<Seq<char>> {
    first_csrf(text::split_on(cookies, ';'))
}

/// The CSRF token in a cookie header.
pub fn csrf_from_cookies(cookies: &str) -> (res: Option<String>)
    ensures
        match res {
            Some(t) => csrf_of(cookies@) == Some(t@),
            None => csrf_of(cookies@) is None,
        },
{
    let chars = text::chars_of(cookies);
    let parts = text::split_on_char(&chars, ';');
    let ghost ps = text::vecs_view(parts@);
    assert(ps.skip(0) =~= ps);
    let mut i: usize = 0;
    while i < parts.len()
        invariant
            i <= parts.len(),
            ps == text::vecs_view(parts@),
            ps == text::split_on(cookies@, ';'),
            first_csrf(ps) == first_csrf(ps.skip(i as int)),
        decreases parts.len() - i,
    {
        assert(ps.skip(i as int).drop_first() =~= ps.skip(i + 1));
        assert(ps.skip(i as int)[0] == parts@[i as int]@);
        let part = text::trimmed(&parts[i]);
        if let Some((name, value)) = text::split_once_char(&part, '=') {
            let key = text::chars_of("bili_jct");
            if text::starts_with(&name, &key) && name.len() == key.len() {
                proof {
                    assert(name@ =~= "bili_jct"@);
                }
                return Some(text::string_from_chars(&value));
            }
            proof {
                if name@ == "bili_jct"@ {
                    assert(name@.take(key@.len() as int) =~= name@);
                }
            }
        }
        i = i + 1;
    }
    assert(ps.skip(parts.len() as int) =~= Seq::<Seq<char>>::empty());
    None
}

pub open spec fn has_key(params: Seq<(String, String)>, key: Seq<char>) -> bool {
    exists|i: int| 0 <= i < params.len() && (#[trigger] params[i]).0@ == key
}

/// The form fields of a POST: the CSRF token is added as `csrf` when the
/// session's cookies hold one and the fields carry none yet.
pub open spec fn with_csrf(params: Seq<(String, String)>, cookies: Option<Seq<char>>) -> Seq<(Seq<char>, Seq<char>)> {
    let fields = params.map_values(|p: (String, String)| (p.0@, p.1@));
    match cookies {
        Some(c) => if text::seq_contains(c, "bili_jct"@) && !has_key(params, "csrf"@) {
            match csrf_of(c) {
                Some(t) => fields.push(("csrf"@, t)),
                None => fields,
            }
        } else {
            fields
        },
        None => fields,
    }
}

/// Adds the CSRF token of the session's cookies to the form fields of a
/// POST where it is owed.
pub fn form_with_csrf(params: Vec<(String, String)>, cookies: Option<&str>) -> (res: Vec<(String, String)>)
    ensures
        res@.map_values(|p: (String, String)| (p.0@, p.1@)) == with_csrf(params@, match cookies {
            Some(c) => Some(c@),
            None => None,
        }),
{
    let mut params = params;
    let ghost given = params@;
    if let Some(c) = cookies {
        let chars = text::chars_of(c);
        let marker = text::chars_of("bili_jct");
        if text::contains(&chars, &marker) {
            let mut found = false;
            let mut i: usize = 0;
            while i < params.len()
                invariant
                    i <= params.len(),
                    params@ == given,
                    found == exists|j: int| 0 <= j < i && (#[trigger] params@[j]).0@ == "csrf"@,
                decreases params.len() - i,
            {
                if text::str_eq(params[i].0.as_str(), "csrf") {
                    found = true;
                }
                i = i + 1;
            }
            if !found {
                if let Some(token) = csrf_from_cookies(c) {
                    params.push((text::to_owned_string("csrf"), token));
                    assert(params@.map_values(|p: (String, String)| (p.0@, p.1@)) =~= given.map_values(
                        |p: (String, String)| (p.0@, p.1@),
                    ).push(("csrf"@, token@)));
                }
            }
        }
    }
    params
}

/// How an attempt at a GET failed.
#[derive(Debug, Clone, Copy, PartialEq, Eq, Structural)]
pub enum RequestFailure {
    /// The request could not be sent.
    Send,
    /// The body could not be read to its end.
    ReadBody,
    /// The server answered with this status, not a success.
    Status(u16),
}

/// The wait, in milliseconds, before trying a GET again after `failure` on
/// attempt `attempt` (counted from 0): only the first attempt is repeated,
/// after a send failure or a server error or `429` after 150 ms, after a
/// truncated body at once; `None` when the failure stands.
pub open spec fn get_retry_spec(attempt: u32, failure: RequestFailure) -> Option<u64> {
    if attempt != 0 {
        None
    } else {
        match failure {
            RequestFailure::Send => Some(150),
            RequestFailure::ReadBody => Some(0),
            RequestFailure::Status(s) => if (500 <= s && s <= 599) || s == 429 { Some(150) } else { None },
        }
    }
}

/// Whether, and after what wait, a failed GET is tried again.
pub fn get_retry(attempt: u32, failure: RequestFailure) -> (res: Option<u64>)
    ensures
        res == get_retry_spec(attempt, failure),
{
    if attempt != 0 {
        return None;
    }
    match failure {
        RequestFailure::Send => Some(150),
        RequestFailure::ReadBody => Some(0),
        RequestFailure::Status(s) => {
            if (500 <= s && s <= 599) || s == 429 {
                Some(150)
            } else {
                None
            }
        },
    }
}

/// A request that a GET retries succeeds on its second attempt or fails:
/// no GET makes more than two attempts.
pub proof fn lemma_get_at_most_two_attempts(attempt: u32, failure: RequestFailure)
    requires
        attempt >= 1,
    ensures
        get_retry_spec(attempt, failure) is None,
{
}

/// The code of a response whose WBI signature was refused.
pub const WBI_SIGNATURE_REFUSED: i32 = -352;

/// A danmaku-server request refused for its signature is signed again with
/// fresh keys and retried once, after its first attempt (counted from 1).
pub fn retry_with_fresh_keys(attempt: u32, code: i32) -> (res: bool)
    ensures
        res == (code == WBI_SIGNATURE_REFUSED && attempt == 1),
{
    code == WBI_SIGNATURE_REFUSED && attempt == 1
}

/// A URL as it may be written to a log: scheme, host and path, without the
/// query that carries keys and signatures.
pub open spec fn safe_url_spec(u: Seq<char>) -> Seq<char> {
    match url::url_parts(u) {
        Some(p) => p.0 + "://"@ + (match p.1 {
            Some(h) => h,
            None => seq![],
        }) + p.2,
        None => "<invalid URL>"@,
    }
}

/// `url` without its query and credentials, for diagnostics;
/// `<invalid URL>` where it does not parse.
pub fn safe_url(u: &str) -> (res: String)
    ensures
        res@ == safe_url_spec(u@),
{
    match url::parse_url(u) {
        Some(p) => {
            let mut s = text::to_owned_string(p.scheme.as_str());
            text::push_str(&mut s, "://");
            match &p.host {
                Some(h) => text::push_str(&mut s, h.as_str()),
                None => {},
            }
            text::push_str(&mut s, p.path.as_str());
            proof {
                if p.host is None {
                    assert(s@ =~= p.scheme@ + "://"@ + Seq::<char>::empty() + p.path@);
                }
            }
            s
        },
        None => text::to_owned_string("<invalid URL>"),
    }
}

} // verus!
