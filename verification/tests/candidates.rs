use bilibili_tui::api::candidates::{candidate_urls, host, one_url_per_host, NoPrimaryUrl};
use bilibili_tui::api::cdn::DashStream;
use bilibili_tui::api::client::safe_url;

fn stream(primary: Option<&str>, backups: &[&str]) -> DashStream {
    DashStream {
        id: 80,
        bandwidth: 1000,
        codecid: 7,
        base_url: primary.map(str::to_string),
        base_url_camel: None,
        backup_url: Some(backups.iter().map(|s| s.to_string()).collect()),
        backup_url_camel: None,
    }
}

#[test]
fn hosts_come_from_the_url_parser() {
    assert_eq!(host("https://upos-sz-mirrorcos.bilivideo.com/a.m4s?x=1").as_deref(), Some("upos-sz-mirrorcos.bilivideo.com"));
    assert_eq!(host("not a url"), None);
    assert_eq!(host("data:text/plain,x"), None);
}

#[test]
fn one_url_per_host_keeps_the_first_and_orders_by_host() {
    let urls: Vec<String> = [
        "https://b.test/1",
        "https://a.test/1",
        "https://b.test/2",
        "nonsense",
        "https://a.test/2",
        "also nonsense",
    ]
    .iter()
    .map(|s| s.to_string())
    .collect();
    assert_eq!(
        one_url_per_host(&urls),
        vec!["nonsense".to_string(), "https://a.test/1".to_string(), "https://b.test/1".to_string()]
    );
}

#[test]
fn candidates_include_backups_and_catalog_hosts() {
    let s = stream(Some("https://c.test/v.m4s?sig=1"), &["https://a.test/v.m4s?sig=2", "https://c.test/other"]);
    let catalog = vec!["b.test".to_string(), "a.test".to_string()];
    assert_eq!(
        candidate_urls(&s, &catalog).unwrap(),
        vec![
            "https://a.test/v.m4s?sig=2".to_string(),
            "https://b.test/v.m4s?sig=1".to_string(),
            "https://c.test/v.m4s?sig=1".to_string(),
        ]
    );
    assert_eq!(candidate_urls(&stream(None, &[]), &catalog), Err(NoPrimaryUrl));
}

#[test]
fn safe_urls_drop_queries() {
    assert_eq!(
        safe_url("https://api.bilibili.com/x/space/wbi/arc/search?mid=1&w_rid=abc"),
        "https://api.bilibili.com/x/space/wbi/arc/search"
    );
    assert_eq!(safe_url("::"), "<invalid URL>");
}
