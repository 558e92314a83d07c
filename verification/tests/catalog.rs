use bilibili_tui::api::catalog::{extract_hosts, is_overseas_host};

#[test]
fn extracts_and_classifies_cdn_hosts() {
    let text = "Host.A=upos-sz-mirrorali.bilivideo.com, https://upos-hz-mirrorakam.akamaized.net/path";
    let hosts = extract_hosts(text);
    assert_eq!(hosts.len(), 2);
    assert!(!is_overseas_host(&hosts[0]));
    assert!(is_overseas_host(&hosts[1]));
    assert!(is_overseas_host("upos-sz-mirrorhwov.bilivideo.com"));
    assert!(is_overseas_host("cn-hk-eq-bcache-01.bilivideo.com"));
    assert_eq!(extract_hosts("proxy-evilakamaized.net").len(), 0);
}

#[test]
fn extracted_hosts_keep_their_order_in_lower_case() {
    let hosts = extract_hosts("upos-sz-MIRRORCOS.bilivideo.com;upos-hz-mirrorakam.akamaized.net UPOS-X.bilivideo.com");
    assert_eq!(hosts, vec!["upos-sz-mirrorcos.bilivideo.com", "upos-hz-mirrorakam.akamaized.net"]);
}

use bilibili_tui::api::catalog::{
    apply_region, hosts_refresh_due, refresh_hosts, region_of_country, region_refresh_due, CatalogCache, HostSet,
    Region,
};

fn empty_cache() -> CatalogCache {
    CatalogCache { updated_at: 0, region_updated_at: 0, region: None, hosts: Vec::new() }
}

#[test]
fn missing_region_remains_neutral() {
    let cache = empty_cache();
    assert_eq!(cache.region, None);
}

#[test]
fn host_sets_are_sorted_and_hold_each_host_once() {
    let mut set = HostSet::new();
    for host in ["b.example", "a.example", "b.example", "ab.example", "a.example"] {
        set.insert(host);
    }
    assert_eq!(set.hosts(), &vec!["a.example", "ab.example", "b.example"]);
}

#[test]
fn refreshed_catalogs_hold_builtin_kept_and_fetched_hosts() {
    let mut cache = empty_cache();
    cache.hosts = vec!["upos-zz-extra.bilivideo.com".into()];
    assert!(hosts_refresh_due(&cache, 100_000));
    assert!(!hosts_refresh_due(&CatalogCache { updated_at: 50_000, ..empty_cache_with_host() }, 100_000));
    let texts = vec!["x upos-aa-new.bilivideo.com y".to_string()];
    refresh_hosts(&mut cache, Some(&texts), 100_000);
    assert_eq!(cache.updated_at, 100_000);
    assert_eq!(cache.hosts.len(), 19 + 2);
    assert_eq!(cache.hosts[0], "cn-hk-eq-bcache-01.bilivideo.com");
    assert!(cache.hosts.iter().any(|h| h == "upos-aa-new.bilivideo.com"));
    assert!(cache.hosts.iter().any(|h| h == "upos-zz-extra.bilivideo.com"));
    assert!(cache.hosts.windows(2).all(|w| w[0] < w[1]));
    let before = cache.hosts.clone();
    refresh_hosts(&mut cache, None, 200_000);
    assert_eq!(cache.updated_at, 100_000);
    assert_eq!(cache.hosts, before);
}

fn empty_cache_with_host() -> CatalogCache {
    CatalogCache { updated_at: 0, region_updated_at: 0, region: None, hosts: vec!["h".into()] }
}

#[test]
fn regions_come_from_country_codes() {
    assert_eq!(region_of_country(86), Region::MainlandChina);
    assert_eq!(region_of_country(1), Region::Overseas);
    let mut cache = empty_cache();
    assert!(region_refresh_due(&cache, 10));
    apply_region(&mut cache, None, 10);
    assert_eq!(cache.region, None);
    apply_region(&mut cache, Some(86), 10);
    assert_eq!((cache.region, cache.region_updated_at), (Some(Region::MainlandChina), 10));
    assert!(!region_refresh_due(&cache, 20));
    assert!(region_refresh_due(&cache, 10 + 86_400));
}
