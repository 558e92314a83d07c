use bilibili_tui::api::dynamic::{
    optional_i32, optional_i64, ArchiveInfo, ArchiveStat, DrawInfo, DrawItem, DynamicItem, DynamicMajor,
    DynamicModules, ModuleAuthor, ModuleDynamic, OpusInfo, OpusPic, OpusSummary,
};
use bilibili_tui::json::parse_json;

fn with_major(major: DynamicMajor) -> DynamicItem {
    DynamicItem {
        id_str: Some("1".into()),
        dynamic_type: None,
        modules: Some(DynamicModules {
            module_author: Some(ModuleAuthor {
                name: Some("up".into()),
                face: None,
                mid: Some(9),
                pub_time: Some("昨天".into()),
                pub_ts: Some(1_720_000_000),
            }),
            module_dynamic: Some(ModuleDynamic { major: Some(major), desc: None }),
        }),
    }
}

fn major(kind: &str) -> DynamicMajor {
    DynamicMajor { major_type: Some(kind.into()), archive: None, draw: None, opus: None }
}

#[test]
fn empty_items_read_defaults() {
    let item = DynamicItem { id_str: None, dynamic_type: None, modules: None };
    assert_eq!(item.author_name(), "未知");
    assert_eq!(item.pub_time(), "");
    assert_eq!(item.video_play(), "-");
    assert_eq!(item.video_danmaku(), "-");
    assert_eq!(item.video_duration(), "");
    assert!(item.draw_images().is_empty());
    assert_eq!(item.comment_type(), 17);
    assert_eq!(item.comment_oid("123"), Some(123));
    assert_eq!(item.comment_oid("x"), None);
}

#[test]
fn video_items_read_their_card() {
    let mut m = major("MAJOR_TYPE_ARCHIVE");
    m.archive = Some(ArchiveInfo {
        bvid: Some("BV1".into()),
        title: Some("t".into()),
        cover: Some("c".into()),
        desc: None,
        duration_text: Some("03:00".into()),
        stat: Some(ArchiveStat { play: Some("1.2万".into()), danmaku: None }),
    });
    let item = with_major(m);
    assert!(item.is_video());
    assert!(!item.is_draw());
    assert_eq!(item.author_name(), "up");
    assert_eq!(item.author_mid(), Some(9));
    assert_eq!(item.pub_time(), "昨天");
    assert_eq!(item.video_bvid(), Some("BV1"));
    assert_eq!(item.video_title(), Some("t"));
    assert_eq!(item.video_cover(), Some("c"));
    assert_eq!(item.video_play(), "1.2万");
    assert_eq!(item.video_danmaku(), "-");
    assert_eq!(item.video_duration(), "03:00");
    assert_eq!(item.comment_type(), 1);
}

#[test]
fn picture_posts_comment_on_their_picture_set() {
    let mut m = major("MAJOR_TYPE_DRAW");
    m.draw = Some(DrawInfo {
        id: Some(42),
        items: Some(vec![
            DrawItem { src: Some("a".into()), height: Some(1080), width: Some(1920) },
            DrawItem { src: None, height: None, width: None },
            DrawItem { src: Some("b".into()), height: None, width: None },
        ]),
    });
    let item = with_major(m);
    assert!(item.is_draw());
    assert_eq!(item.draw_images(), vec!["a", "b"]);
    assert_eq!(item.comment_type(), 11);
    assert_eq!(item.comment_oid("999"), Some(42));
}

#[test]
fn opus_posts_read_text_and_pictures() {
    let mut m = major("MAJOR_TYPE_OPUS");
    m.opus = Some(OpusInfo {
        title: None,
        summary: Some(OpusSummary { text: Some("hi".into()), rich_text_nodes: None }),
        pics: Some(vec![OpusPic { url: Some("p".into()), height: None, width: None }]),
    });
    let item = with_major(m);
    assert!(item.is_opus());
    assert_eq!(item.opus_text(), Some("hi"));
    assert_eq!(item.opus_images(), vec!["p"]);
    assert_eq!(item.comment_type(), 11);
    assert_eq!(item.comment_oid("77"), Some(77));
}

#[test]
fn numeric_fields_accept_numbers_strings_and_null() {
    let v = parse_json(r#"[1720000000, "1720000000", null, "not-a-number", "2147483648", true]"#).unwrap();
    let items = v.as_array().unwrap();
    assert_eq!(optional_i64(Some(&items[0])), Ok(Some(1_720_000_000)));
    assert_eq!(optional_i64(Some(&items[1])), Ok(Some(1_720_000_000)));
    assert_eq!(optional_i64(Some(&items[2])), Ok(None));
    assert_eq!(optional_i64(None), Ok(None));
    assert_eq!(optional_i64(Some(&items[3])), Err(()));
    assert_eq!(optional_i32(Some(&items[4])), Err(()));
    assert_eq!(optional_i64(Some(&items[5])), Err(()));
    assert_eq!(optional_i32(Some(&items[1])), Ok(Some(1_720_000_000)));
}

#[test]
fn detail_pages_show_the_pictures_of_picture_and_opus_posts() {
    let mut d = major("MAJOR_TYPE_DRAW");
    d.draw = Some(DrawInfo {
        id: Some(1),
        items: Some(vec![
            DrawItem { src: Some("a".into()), height: None, width: None },
            DrawItem { src: Some("b".into()), height: None, width: None },
        ]),
    });
    assert_eq!(with_major(d).detail_image_urls(), vec!["a".to_string(), "b".to_string()]);
    let mut o = major("MAJOR_TYPE_OPUS");
    o.opus = Some(OpusInfo {
        title: None,
        summary: None,
        pics: Some(vec![OpusPic { url: Some("p".into()), height: None, width: None }]),
    });
    assert_eq!(with_major(o).detail_image_urls(), vec!["p".to_string()]);
    assert!(with_major(major("MAJOR_TYPE_ARCHIVE")).detail_image_urls().is_empty());
}
