use bilibili_tui::api::client::{
    build_url, check_code, cookie_header, csrf_from_cookies, form_with_csrf, ApiError, BilibiliApiDomain,
};
use bilibili_tui::json::parse_json;

#[test]
fn hosts_and_urls() {
    assert_eq!(BilibiliApiDomain::Main.as_str(), "https://api.bilibili.com");
    assert_eq!(BilibiliApiDomain::Passport.as_str(), "https://passport.bilibili.com");
    assert_eq!(build_url(BilibiliApiDomain::Main, "/x/web-interface/nav"), "https://api.bilibili.com/x/web-interface/nav");
}

#[test]
fn only_code_zero_is_accepted() {
    assert_eq!(check_code(&parse_json(r#"{"code":0,"message":"0"}"#).unwrap()), Ok(()));
    let err = check_code(&parse_json(r#"{"code":-101,"message":"账号未登录"}"#).unwrap()).unwrap_err();
    assert_eq!(err, ApiError { code: -101, message: "账号未登录".into() });
    assert_eq!(err.describe(), "API error (-101): 账号未登录");
    let missing = check_code(&parse_json(r#"{"data":null}"#).unwrap()).unwrap_err();
    assert_eq!(missing.describe(), "API error (-1): unknown error");
}

#[test]
fn csrf_comes_from_the_bili_jct_cookie() {
    let cookies = cookie_header("s", "token", "42");
    assert_eq!(cookies, "SESSDATA=s; bili_jct=token; DedeUserID=42");
    assert_eq!(csrf_from_cookies(&cookies).as_deref(), Some("token"));
    assert_eq!(csrf_from_cookies("a=1; b=2"), None);
    let form = form_with_csrf(vec![("oid".into(), "1".into())], Some(&cookies));
    assert_eq!(form, vec![("oid".to_string(), "1".to_string()), ("csrf".to_string(), "token".to_string())]);
    let given = form_with_csrf(vec![("csrf".into(), "mine".into())], Some(&cookies));
    assert_eq!(given, vec![("csrf".to_string(), "mine".to_string())]);
    assert_eq!(form_with_csrf(Vec::new(), None), Vec::<(String, String)>::new());
}

use bilibili_tui::api::client::{get_retry, retry_with_fresh_keys, RequestFailure};

#[test]
fn gets_are_retried_once_after_transient_failures() {
    assert_eq!(get_retry(0, RequestFailure::Send), Some(150));
    assert_eq!(get_retry(0, RequestFailure::ReadBody), Some(0));
    assert_eq!(get_retry(0, RequestFailure::Status(503)), Some(150));
    assert_eq!(get_retry(0, RequestFailure::Status(429)), Some(150));
    assert_eq!(get_retry(0, RequestFailure::Status(404)), None);
    assert_eq!(get_retry(1, RequestFailure::Send), None);
    assert!(retry_with_fresh_keys(1, -352));
    assert!(!retry_with_fresh_keys(2, -352));
    assert!(!retry_with_fresh_keys(1, -101));
}
