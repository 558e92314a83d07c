//! What the client sends: the URLs of the requests it builds by hand, with
//! their queries, and the forms of the comment actions, with the errors
//! their answers turn into.

use vstd::prelude::*;
use crate::api::client::{self, ApiResponse, BilibiliApiDomain};
use crate::text;

verus! {

broadcast use vstd::string::group_string_axioms;

/// `base`, then `?` and the parameters joined by `&`, where there are any.
pub open spec fn with_query(base: Seq<char>, params: Seq<Seq<char>>) -> Seq<char> {
    if params.len() == 0 {
        base
    } else {
        base + "?"@ + text::joined(params, "&"@)
    }
}

/// Appends the query made of `params` to `url`.
fn push_query(url: &mut String, params: &Vec<String>)
    ensures
        final(url)@ == with_query(old(url)@, text::string_views(params@)),
{
    let ghost base = url@;
    let mut i: usize = 0;
    while i < params.len()
        invariant
            i <= params.len(),
            i == 0 ==> url@ == base,
            i > 0 ==> url@ == base + "?"@ + text::joined(text::string_views(params@.take(i as int)), "&"@),
        decreases params.len() - i,
    {
        let ghost before = url@;
        if i == 0 {
            text::push_str(url, "?");
        } else {
            text::push_str(url, "&");
        }
        text::push_str(url, params[i].as_str());
        proof {
            let parts = text::string_views(params@.take(i + 1));
            assert(parts.drop_last() =~= text::string_views(params@.take(i as int)));
            assert(parts.last() == params@[i as int]@);
            if i == 0 {
                assert(parts.len() == 1);
                assert(text::joined(parts, "&"@) == parts[0]);
            } else {
                assert(text::joined(parts, "&"@) == text::joined(parts.drop_last(), "&"@) + "&"@ + parts.last());
            }
        }
        i = i + 1;
    }
    assert(params@.take(params@.len() as int) =~= params@);
}

fn param(name: &str, value: &str) -> (res: String)
    ensures
        res@ == name@ + value@,
{
    let mut p = text::to_owned_string(name);
    text::push_str(&mut p, value);
    p
}

fn param_i64(name: &str, value: i64) -> (res: String)
    ensures
        res@ == name@ + text::signed_decimal(value as int),
{
    let mut p = text::to_owned_string(name);
    text::push_signed_decimal(&mut p, value);
    p
}

/// The parameters of a dynamic feed request: its type, offset and author,
/// those given, in that order.
pub open spec fn dynamic_feed_params(offset: Option<Seq<char>>, feed_type: Option<Seq<char>>, host_mid: Option<i64>) -> Seq<Seq<char>> {
    (match feed_type {
        Some(t) => seq!["type="@ + t],
        None => seq![],
    }) + (match offset {
        Some(o) => seq!["offset="@ + o],
        None => seq![],
    }) + (match host_mid {
        Some(m) => seq!["host_mid="@ + text::signed_decimal(m as int)],
        None => seq![],
    })
}

pub open spec fn opt_view(o: Option<&str>) -> Option<Seq<char>> {
    match o {
        Some(s) => Some(s@),
        None => None,
    }
}

/// The URL of one page of the dynamic feed.
pub fn dynamic_feed_url(offset: Option<&str>, feed_type: Option<&str>, host_mid: Option<i64>) -> (res: String)
    ensures
        res@ == with_query(client::origin(BilibiliApiDomain::Main) + "/x/polymer/web-dynamic/v1/feed/all"@,
            dynamic_feed_params(opt_view(offset), opt_view(feed_type), host_mid)),
{
    let mut url = client::build_url(BilibiliApiDomain::Main, "/x/polymer/web-dynamic/v1/feed/all");
    let mut params: Vec<String> = Vec::new();
    match feed_type {
        Some(t) => params.push(param("type=", t)),
        None => {},
    }
    match offset {
        Some(o) => params.push(param("offset=", o)),
        None => {},
    }
    match host_mid {
        Some(m) => params.push(param_i64("host_mid=", m)),
        None => {},
    }
    assert(text::string_views(params@) =~= dynamic_feed_params(opt_view(offset), opt_view(feed_type), host_mid));
    push_query(&mut url, &params);
    url
}

/// The parameters of a history request: twenty entries, and the cursor and
/// business given, in that order.
pub open spec fn history_params(max: Option<i64>, view_at: Option<i64>, business: Option<Seq<char>>) -> Seq<Seq<char>> {
    seq!["ps=20"@] + (match max {
        Some(m) => seq!["max="@ + text::signed_decimal(m as int)],
        None => seq![],
    }) + (match view_at {
        Some(v) => seq!["view_at="@ + text::signed_decimal(v as int)],
        None => seq![],
    }) + (match business {
        Some(b) => seq!["business="@ + b],
        None => seq![],
    })
}

/// The URL of one page of the watch history.
pub fn history_url(max: Option<i64>, view_at: Option<i64>, business: Option<&str>) -> (res: String)
    ensures
        res@ == with_query(client::origin(BilibiliApiDomain::Main) + "/x/web-interface/history/cursor"@,
            history_params(max, view_at, opt_view(business))),
{
    let mut url = client::build_url(BilibiliApiDomain::Main, "/x/web-interface/history/cursor");
    let mut params: Vec<String> = Vec::new();
    params.push(text::to_owned_string("ps=20"));
    match max {
        Some(m) => params.push(param_i64("max=", m)),
        None => {},
    }
    match view_at {
        Some(v) => params.push(param_i64("view_at=", v)),
        None => {},
    }
    match business {
        Some(b) => params.push(param("business=", b)),
        None => {},
    }
    assert(text::string_views(params@) =~= history_params(max, view_at, opt_view(business)));
    push_query(&mut url, &params);
    url
}

/// At least 1.
pub open spec fn at_least_one(n: i32) -> i32 {
    if n < 1 { 1 } else { n }
}

/// The URL of one page of the popular feed; page and size are at least 1.
pub fn popular_url(page: i32, page_size: i32) -> (res: String)
    ensures
        res@ == client::origin(BilibiliApiDomain::Main) + "/x/web-interface/popular?pn="@
            + text::signed_decimal(at_least_one(page) as int) + "&ps="@
            + text::signed_decimal(at_least_one(page_size) as int),
{
    let mut url = client::build_url(BilibiliApiDomain::Main, "/x/web-interface/popular?pn=");
    let pn: i32 = if page < 1 { 1 } else { page };
    let ps: i32 = if page_size < 1 { 1 } else { page_size };
    text::push_signed_decimal(&mut url, pn as i64);
    text::push_str(&mut url, "&ps=");
    text::push_signed_decimal(&mut url, ps as i64);
    url
}

// ---------------------------------------------------------------------------
// Comment actions
// ---------------------------------------------------------------------------

pub open spec fn pairs_view(v: Seq<(String, String)>) -> Seq<(Seq<char>, Seq<char>)> {
    v.map_values(|p: (String, String)| (p.0@, p.1@))
}

fn pair(name: &str, value: String) -> (res: (String, String))
    ensures
        res.0@ == name@ && res.1@ == value@,
{
    (text::to_owned_string(name), value)
}

/// The form that posts `message` under `oid` in comment area
/// `comment_type`, as a reply under `root` and `parent` where given.
pub open spec fn add_comment_form_spec(oid: i64, comment_type: i32, message: Seq<char>, root: Option<i64>, parent: Option<i64>) -> Seq<(Seq<char>, Seq<char>)> {
    seq![("type"@, text::signed_decimal(comment_type as int)), ("oid"@, text::signed_decimal(oid as int)),
        ("message"@, message), ("plat"@, "1"@)]
        + (match root {
            Some(r) => seq![("root"@, text::signed_decimal(r as int))],
            None => seq![],
        }) + (match parent {
            Some(p) => seq![("parent"@, text::signed_decimal(p as int))],
            None => seq![],
        })
}

pub fn add_comment_form(oid: i64, comment_type: i32, message: &str, root: Option<i64>, parent: Option<i64>) -> (res: Vec<(String, String)>)
    ensures
        pairs_view(res@) == add_comment_form_spec(oid, comment_type, message@, root, parent),
{
    let mut form: Vec<(String, String)> = Vec::new();
    form.push(pair("type", text::i64_to_string(comment_type as i64)));
    form.push(pair("oid", text::i64_to_string(oid)));
    form.push(pair("message", text::to_owned_string(message)));
    form.push(pair("plat", text::to_owned_string("1")));
    match root {
        Some(r) => form.push(pair("root", text::i64_to_string(r))),
        None => {},
    }
    match parent {
        Some(p) => form.push(pair("parent", text::i64_to_string(p))),
        None => {},
    }
    assert(pairs_view(form@) =~= add_comment_form_spec(oid, comment_type, message@, root, parent));
    form
}

/// The form that names comment `rpid` under `oid` in area `comment_type`,
/// with `action` 1 to set a vote and 0 to take it back where one is given.
pub open spec fn comment_form_spec(oid: i64, rpid: i64, comment_type: i32, action: Option<bool>) -> Seq<(Seq<char>, Seq<char>)> {
    seq![("type"@, text::signed_decimal(comment_type as int)), ("oid"@, text::signed_decimal(oid as int)),
        ("rpid"@, text::signed_decimal(rpid as int))]
        + (match action {
            Some(a) => seq![("action"@, if a { "1"@ } else { "0"@ })],
            None => seq![],
        })
}

/// The form of a like, a dislike (`action` given) or a deletion (none).
pub fn comment_form(oid: i64, rpid: i64, comment_type: i32, action: Option<bool>) -> (res: Vec<(String, String)>)
    ensures
        pairs_view(res@) == comment_form_spec(oid, rpid, comment_type, action),
{
    let mut form: Vec<(String, String)> = Vec::new();
    form.push(pair("type", text::i64_to_string(comment_type as i64)));
    form.push(pair("oid", text::i64_to_string(oid)));
    form.push(pair("rpid", text::i64_to_string(rpid)));
    match action {
        Some(a) => form.push(pair("action", text::to_owned_string(if a { "1" } else { "0" }))),
        None => {},
    }
    assert(pairs_view(form@) =~= comment_form_spec(oid, rpid, comment_type, action));
    form
}

/// What is done to a comment.
#[derive(Debug, Clone, Copy, PartialEq, Eq, Structural)]
pub enum CommentAction {
    Add,
    Like,
    Unlike,
    Dislike,
    Undislike,
    Delete,
}

pub open spec fn comment_verb(a: CommentAction) -> Seq<char> {
    match a {
        CommentAction::Add => "add"@,
        CommentAction::Like => "like"@,
        CommentAction::Unlike => "unlike"@,
        CommentAction::Dislike => "dislike"@,
        CommentAction::Undislike => "un-dislike"@,
        CommentAction::Delete => "delete"@,
    }
}

impl CommentAction {
    /// The verb of the action's error text.
    pub fn verb(self) -> (res: &'static str)
        ensures
            res@ == comment_verb(self),
    {
        match self {
            CommentAction::Add => "add",
            CommentAction::Like => "like",
            CommentAction::Unlike => "unlike",
            CommentAction::Dislike => "dislike",
            CommentAction::Undislike => "un-dislike",
            CommentAction::Delete => "delete",
        }
    }
}

/// The answer to a comment action: its data, absent or not, when its code
/// is 0; else `Failed to {verb} comment: {message}`.
pub fn comment_answer<T>(action: CommentAction, resp: ApiResponse<T>) -> (res: Result<Option<T>, String>)
    ensures
        resp.code == 0 ==> res == Ok::<Option<T>, String>(resp.data),
        resp.code != 0 ==> (res matches Err(e)
            && e@ == "Failed to "@ + comment_verb(action) + " comment: "@ + resp.message@),
{
    if resp.code != 0 {
        let mut e = text::to_owned_string("Failed to ");
        text::push_str(&mut e, action.verb());
        text::push_str(&mut e, " comment: ");
        text::push_str(&mut e, resp.message.as_str());
        return Err(e);
    }
    Ok(resp.data)
}

/// The answer to a new comment, which must carry the comment.
pub fn added_comment<T>(resp: ApiResponse<T>) -> (res: Result<T, String>)
    ensures
        resp.code != 0 ==> (res matches Err(e) && e@ == "Failed to add comment: "@ + resp.message@),
        resp.code == 0 ==> match resp.data {
            Some(d) => res == Ok::<T, String>(d),
            None => (res matches Err(e) && e@ == "No data in add comment response"@),
        },
{
    match comment_answer(CommentAction::Add, resp) {
        Ok(Some(d)) => Ok(d),
        Ok(None) => Err(text::to_owned_string("No data in add comment response")),
        Err(e) => {
            proof {
                reveal_strlit("Failed to ");
                reveal_strlit("add");
                reveal_strlit(" comment: ");
                reveal_strlit("Failed to add comment: ");
                assert("Failed to "@ + "add"@ + " comment: "@ =~= "Failed to add comment: "@);
            }
            Err(e)
        },
    }
}

} // verus!
