use bilibili_tui::api::article::{
    document_from_html, document_from_html_blocks, document_from_json, document_from_json_value, ArticleBlock, ArticleData,
    HtmlBlock, HtmlImage,
};
use bilibili_tui::json::{parse_json, JsonValue};

fn article(content: &str, article_type: i32) -> ArticleData {
    ArticleData {
        id: 1,
        title: "title".into(),
        summary: String::new(),
        content: content.into(),
        article_type,
        author: None,
        publish_time: 0,
        image_urls: Vec::new(),
        origin_image_urls: Vec::new(),
    }
}

#[test]
fn html_article_extracts_structure_cards_and_images() {
    let article = ArticleData {
        id: 1,
        title: "title".into(),
        summary: String::new(),
        content: r#"<h1>标题</h1><p>A &amp; B <a href="https://example.test">链接</a></p><figure><img data-src="//i.test/a.jpg"></figure><figure><img class="video-card" aid="2"></figure>"#.into(),
        article_type: 0,
        author: None,
        publish_time: 0,
        image_urls: Vec::new(),
        origin_image_urls: Vec::new(),
    };
    let document = article.document();
    assert!(document.body.contains("# 标题"));
    assert!(document.body.contains("A & B"));
    assert!(document.body.contains("https://example.test"));
    assert!(document.body.contains("[视频 2]"));
    assert_eq!(document.image_urls, vec!["https://i.test/a.jpg"]);
    assert!(matches!(document.blocks[0], ArticleBlock::Text(_)));
    assert!(matches!(document.blocks[1], ArticleBlock::Text(_)));
    assert!(matches!(
        &document.blocks[2],
        ArticleBlock::Image { url, .. } if url == "https://i.test/a.jpg"
    ));
    assert!(
        matches!(
            &document.blocks[3],
            ArticleBlock::Embedded(text) if text == "[视频 2]"
        ),
        "{:?}",
        document.blocks
    );
}

#[test]
fn json_article_extracts_text_and_native_images() {
    let document = document_from_json(
        r#"{"ops":[{"insert":"hello\n"},{"insert":{"native-image":{"url":"https://i.test/a.jpg"}}},{"insert":{"article-card":{"id":"cv7"}}}]}"#,
    );
    assert!(document.body.contains("hello"));
    assert!(document.body.contains("[图片 1]"));
    assert!(document.body.contains("[文章 cv7]"));
    assert_eq!(document.image_urls.len(), 1);
    assert!(matches!(document.blocks[0], ArticleBlock::Text(_)));
    assert!(matches!(document.blocks[1], ArticleBlock::Image { .. }));
    assert!(matches!(document.blocks[2], ArticleBlock::Embedded(_)));
}

#[test]
fn html_article_body_is_exact() {
    let document = article(
        r#"<h1>标题</h1><p>A &amp; B <a href="https://example.test">链接</a></p><figure><img data-src="//i.test/a.jpg"></figure><figure><img class="video-card" aid="2"></figure>"#,
        0,
    )
    .document();
    assert_eq!(
        document.body,
        "# 标题\n\nA & B 链接 (https://example.test)\n\n[图片 1]\n\n[视频 2]"
    );
}

#[test]
fn json_text_operations_join_into_one_block() {
    let document = document_from_json(r#"{"ops":[{"insert":"a"},{"insert":"b"},{"insert":{"cut-off":{}}},{"insert":{"video-card":{"id":12}}}]}"#);
    assert_eq!(
        document.blocks,
        vec![
            ArticleBlock::Text("ab".into()),
            ArticleBlock::Embedded("────────".into()),
            ArticleBlock::Embedded("[视频 12]".into()),
        ]
    );
    assert_eq!(document.body, "ab\n\n────────\n\n[视频 12]");
}

#[test]
fn content_that_is_no_json_stays_one_text_block() {
    let document = document_from_json("{not json");
    assert_eq!(document.blocks, vec![ArticleBlock::Text("{not json".into())]);
    assert_eq!(document.body, "{not json");
    assert!(document.image_urls.is_empty());
}

#[test]
fn type_three_articles_read_json_and_add_their_own_images() {
    let mut data = article(r#"{"ops":[{"insert":"x"}]}"#, 3);
    data.image_urls = vec!["//i.test/b.png".into(), "".into()];
    data.origin_image_urls = vec!["https://i.test/b.png".into()];
    let document = data.document();
    assert_eq!(document.image_urls, vec!["https://i.test/b.png"]);
    assert_eq!(
        document.blocks,
        vec![
            ArticleBlock::Text("x".into()),
            ArticleBlock::Image { url: "https://i.test/b.png".into(), alt: "文章图片".into() },
        ]
    );
    assert_eq!(document.body, "x\n\n[图片 1]");
}

#[test]
fn summary_stands_in_for_an_empty_article() {
    let mut data = article("<p>   </p>", 0);
    data.summary = " 摘要 ".into();
    let document = data.document();
    assert_eq!(document.blocks, vec![ArticleBlock::Text(" 摘要 ".into())]);
    assert_eq!(document.body, "摘要");
}

#[test]
fn html_blocks_follow_their_tags() {
    let blocks = vec![
        HtmlBlock::Text { name: "blockquote".into(), text: " q ".into(), hrefs: vec![] },
        HtmlBlock::Text { name: "li".into(), text: "item".into(), hrefs: vec!["".into(), "u".into()] },
        HtmlBlock::Text { name: "pre".into(), text: "code".into(), hrefs: vec![] },
        HtmlBlock::Image {
            image: HtmlImage {
                class: None,
                aid: None,
                data_aid: None,
                data_src: None,
                src: Some("https://i.test/c.jpg".into()),
                alt: Some("alt".into()),
            },
            in_figure: false,
        },
        HtmlBlock::Image {
            image: HtmlImage {
                class: None,
                aid: None,
                data_aid: None,
                data_src: None,
                src: Some("https://i.test/d.jpg".into()),
                alt: None,
            },
            in_figure: true,
        },
    ];
    let document = document_from_html_blocks(&blocks, "ignored");
    assert_eq!(
        document.blocks,
        vec![
            ArticleBlock::Text("> q".into()),
            ArticleBlock::Text("• item (u)".into()),
            ArticleBlock::Text("```\ncode\n```".into()),
            ArticleBlock::Image { url: "https://i.test/c.jpg".into(), alt: "alt".into() },
        ]
    );
    assert_eq!(document.image_urls, vec!["https://i.test/c.jpg"]);
}

#[test]
fn html_without_blocks_falls_back_to_its_text() {
    let document = document_from_html_blocks(&Vec::new(), "  plain text ");
    assert_eq!(document.blocks, vec![ArticleBlock::Text("plain text".into())]);
    assert_eq!(article("plain <b>text</b>", 0).document().body, "plain text");
}

#[test]
fn json_value_given_as_argument_is_read() {
    let parsed: Option<JsonValue> = parse_json(r#"{"ops":[{"insert":{"native-image":{"url":"//i.test/e.jpg","alt":"e"}}}]}"#);
    let document = document_from_json_value("ignored", &parsed);
    assert_eq!(
        document.blocks,
        vec![ArticleBlock::Image { url: "https://i.test/e.jpg".into(), alt: "e".into() }]
    );
    assert_eq!(document.image_urls, vec!["https://i.test/e.jpg"]);
    assert_eq!(document_from_json_value("raw", &None).body, "raw");
}

#[test]
fn content_holding_the_same_json_gives_the_same_document() {
    let spaced = document_from_json("{ \"ops\" : [ { \"insert\" : \"hello\\n\" } ] }");
    let tight = document_from_json(r#"{"ops":[{"insert":"hello\n"}]}"#);
    assert_eq!(spaced, tight);
    assert_eq!(tight.blocks, vec![ArticleBlock::Text("hello\n".into())]);
}

#[test]
fn an_html_fragment_reads_to_one_document() {
    let content = r#"<p>one <a href="https://a.test">a</a></p><figure><img src="//i.test/b.png" alt="b"></figure>"#;
    let first = document_from_html(content);
    let second = document_from_html(content);
    assert_eq!(first, second);
    assert_eq!(first.image_urls, vec!["https://i.test/b.png".to_string()]);
}
