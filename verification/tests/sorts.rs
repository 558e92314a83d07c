use bilibili_tui::api::favorite::FavoriteOrder;
use bilibili_tui::api::space::SpaceVideoOrder;

#[test]
fn favorite_sort_matches_web_query_values() {
    assert_eq!(FavoriteOrder::RecentlyFavorited.api_value(), "mtime");
    assert_eq!(FavoriteOrder::MostPlayed.api_value(), "view");
    assert_eq!(FavoriteOrder::RecentlyPublished.api_value(), "pubtime");
}

#[test]
fn space_sort_matches_web_query_values() {
    assert_eq!(SpaceVideoOrder::Latest.api_value(), "pubdate");
    assert_eq!(SpaceVideoOrder::Popular.api_value(), "click");
}

#[test]
fn favorite_order_cycles_through_all_three() {
    let start = FavoriteOrder::RecentlyFavorited;
    let once = start.next();
    let twice = once.next();
    assert_eq!(once.api_value(), "view");
    assert_eq!(twice.api_value(), "pubtime");
    assert_eq!(twice.next().api_value(), "mtime");
}
