//! Articles: response models and their normalization into text blocks for
//! the terminal. An article's content is either a JSON document of insert
//! operations or an HTML fragment; both become the same list of blocks.

use vstd::prelude::*;
use crate::html::{self, HtmlElement, StepModel};
use crate::json::{self, JsonValue};
use crate::text;

verus! {

broadcast use vstd::string::group_string_axioms;

// ---------------------------------------------------------------------------
// Models
// ---------------------------------------------------------------------------

pub struct ArticleAuthor {
    pub mid: i64,
    pub name: String,
}

pub struct ArticleData {
    pub id: i64,
    pub title: String,
    pub summary: String,
    /// The content as received; a JSON object in the response is kept as its
    /// JSON text.
    pub content: String,
    pub article_type: i32,
    pub author: Option<ArticleAuthor>,
    pub publish_time: i64,
    pub image_urls: Vec<String>,
    pub origin_image_urls: Vec<String>,
}

/// One block of an article as the terminal shows it.
#[derive(Debug, Clone, PartialEq, Eq)]
pub enum ArticleBlock {
    Text(String),
    Image { url: String, alt: String },
    Embedded(String),
}

/// The text of an article: its blocks, the distinct image URLs in them, and
/// the body that the blocks render to.
#[derive(Debug, Clone, PartialEq, Eq)]
pub struct ArticleDocument {
    pub body: String,
    pub image_urls: Vec<String>,
    pub blocks: Vec<ArticleBlock>,
}

pub enum BlockModel {
    Text(Seq<char>),
    Image { url: Seq<char>, alt: Seq<char> },
    Embedded(Seq<char>),
}

impl View for ArticleBlock {
    type V = BlockModel;

    open spec fn view(&self) -> BlockModel {
        match self {
            ArticleBlock::Text(t) => BlockModel::Text(t@),
            ArticleBlock::Image { url, alt } => BlockModel::Image { url: url@, alt: alt@ },
            ArticleBlock::Embedded(t) => BlockModel::Embedded(t@),
        }
    }
}

pub struct DocumentModel {
    pub body: Seq<char>,
    pub image_urls: Seq<Seq<char>>,
    pub blocks: Seq<BlockModel>,
}

pub open spec fn block_models(v: Seq<ArticleBlock>) -> Seq<BlockModel> {
    v.map_values(|b: ArticleBlock| b@)
}

impl View for ArticleDocument {
    type V = DocumentModel;

    open spec fn view(&self) -> DocumentModel {
        DocumentModel {
            body: self.body@,
            image_urls: text::string_views(self.image_urls@),
            blocks: block_models(self.blocks@),
        }
    }
}

/// Blocks and image URLs collected so far.
pub struct Draft {
    pub blocks: Seq<BlockModel>,
    pub urls: Seq<Seq<char>>,
}

pub open spec fn empty_draft() -> Draft {
    Draft { blocks: seq![], urls: seq![] }
}

// ---------------------------------------------------------------------------
// The body
// ---------------------------------------------------------------------------

/// The number of images among the first `k` blocks.
pub open spec fn image_count(blocks: Seq<BlockModel>, k: int) -> nat
    decreases k,
{
    if k <= 0 {
        0
    } else {
        image_count(blocks, k - 1) + if blocks[k - 1] is Image { 1nat } else { 0nat }
    }
}

/// The placeholder of the `n`-th image in the body.
pub open spec fn image_label(n: nat) -> Seq<char> {
    "[图片 "@ + text::decimal(n) + "]"@
}

/// What block `i` shows in the body: text trimmed, an image by its number,
/// an embedded card as it is.
pub open spec fn body_piece(blocks: Seq<BlockModel>, i: int) -> Seq<char> {
    match blocks[i] {
        BlockModel::Text(t) => text::trim(t),
        BlockModel::Image { .. } => image_label(image_count(blocks, i + 1)),
        BlockModel::Embedded(t) => t,
    }
}

/// The non-empty pieces of the first `k` blocks.
pub open spec fn body_parts(blocks: Seq<BlockModel>, k: int) -> Seq<Seq<char>>
    decreases k,
{
    if k <= 0 {
        seq![]
    } else {
        let prev = body_parts(blocks, k - 1);
        let piece = body_piece(blocks, k - 1);
        if piece.len() == 0 { prev } else { prev.push(piece) }
    }
}

/// The body: the non-empty pieces, separated by blank lines.
pub open spec fn body_of(blocks: Seq<BlockModel>) -> Seq<char> {
    text::joined(body_parts(blocks, blocks.len() as int), "\n\n"@)
}

proof fn lemma_joined_push(parts: Seq<Seq<char>>, p: Seq<char>, sep: Seq<char>)
    ensures
        text::joined(parts.push(p), sep) == if parts.len() == 0 { p } else { text::joined(parts, sep) + sep + p },
{
    assert(parts.push(p).drop_last() =~= parts);
    if parts.len() == 0 {
        assert(parts.push(p).len() == 1);
    }
}

/// The text of one block as the body shows it; `count` is the number of
/// images up to and including this block.
fn body_piece_text(block: &ArticleBlock, count: u64) -> (res: String)
    ensures
        res@ == match block@ {
            BlockModel::Text(t) => text::trim(t),
            BlockModel::Image { .. } => image_label(count as nat),
            BlockModel::Embedded(t) => t,
        },
{
    match block {
        ArticleBlock::Text(t) => {
            let chars = text::chars_of(t.as_str());
            let trimmed = text::trimmed(&chars);
            text::string_from_chars(&trimmed)
        },
        ArticleBlock::Image { .. } => {
            let mut s = text::to_owned_string("[图片 ");
            text::push_decimal(&mut s, count);
            text::push_str(&mut s, "]");
            s
        },
        ArticleBlock::Embedded(t) => text::to_owned_string(t.as_str()),
    }
}

/// The body of a list of blocks.
fn document_body(blocks: &Vec<ArticleBlock>) -> (res: String)
    ensures
        res@ == body_of(block_models(blocks@)),
{
    let ghost bm = block_models(blocks@);
    let mut out = String::new();
    let mut count: u64 = 0;
    let mut any = false;
    let mut i: usize = 0;
    while i < blocks.len()
        invariant
            i <= blocks.len(),
            any == (body_parts(bm, i as int).len() > 0),
            bm == block_models(blocks@),
            count == image_count(bm, i as int),
            count <= i,
            out@ == text::joined(body_parts(bm, i as int), "\n\n"@),
        decreases blocks.len() - i,
    {
        assert(bm[i as int] == blocks@[i as int]@);
        if let ArticleBlock::Image { .. } = &blocks[i] {
            count = count + 1;
        }
        let piece = body_piece_text(&blocks[i], count);
        proof {
            assert(image_count(bm, i + 1) == count);
            assert(piece@ == body_piece(bm, i as int));
            lemma_joined_push(body_parts(bm, i as int), piece@, "\n\n"@);
        }
        if !piece.as_str().is_empty() {
            if any {
                text::push_str(&mut out, "\n\n");
            }
            text::push_str(&mut out, piece.as_str());
            any = true;
        }
        i = i + 1;
    }
    out
}

// ---------------------------------------------------------------------------
// Collecting blocks and image URLs
// ---------------------------------------------------------------------------

pub open spec fn draft_of(blocks: Seq<ArticleBlock>, urls: Seq<String>) -> Draft {
    Draft { blocks: block_models(blocks), urls: text::string_views(urls) }
}

pub open spec fn with_block(d: Draft, b: BlockModel) -> Draft {
    Draft { blocks: d.blocks.push(b), urls: d.urls }
}

/// `urls` with the normalized form of `url` added, unless that is empty or
/// already there.
pub open spec fn with_unique_url(urls: Seq<Seq<char>>, url: Seq<char>) -> Seq<Seq<char>> {
    let n = text::normalized_url_spec(url);
    if n.len() > 0 && !urls.contains(n) {
        urls.push(n)
    } else {
        urls
    }
}

/// `blocks` with `t` appended to a last text block, or added as a new text
/// block.
pub open spec fn with_text(blocks: Seq<BlockModel>, t: Seq<char>) -> Seq<BlockModel> {
    if blocks.len() > 0 {
        match blocks.last() {
            BlockModel::Text(prev) => blocks.drop_last().push(BlockModel::Text(prev + t)),
            _ => blocks.push(BlockModel::Text(t)),
        }
    } else {
        blocks.push(BlockModel::Text(t))
    }
}

/// The placeholder of an embedded card.
pub open spec fn card_text(label: Seq<char>, id: Seq<char>) -> Seq<char> {
    "["@ + label + " "@ + id + "]"@
}

/// Whether `list` holds `s`.
fn contains_string(list: &Vec<String>, s: &str) -> (res: bool)
    ensures
        res == text::string_views(list@).contains(s@),
{
    let mut i: usize = 0;
    while i < list.len()
        invariant
            i <= list.len(),
            forall|j: int| 0 <= j < i ==> (#[trigger] list@[j])@ != s@,
        decreases list.len() - i,
    {
        if text::str_eq(list[i].as_str(), s) {
            assert(text::string_views(list@)[i as int] == s@);
            return true;
        }
        i = i + 1;
    }
    assert forall|j: int| 0 <= j < text::string_views(list@).len() implies text::string_views(list@)[j] != s@ by {
        assert(text::string_views(list@)[j] == list@[j]@);
    }
    false
}

/// Adds the normalized form of `url` to `urls` unless it is empty or
/// already there.
fn push_unique_url(urls: &mut Vec<String>, url: &str)
    ensures
        text::string_views(final(urls)@) == with_unique_url(text::string_views(old(urls)@), url@),
{
    let n = text::normalized_url(url);
    if !n.as_str().is_empty() && !contains_string(urls, n.as_str()) {
        urls.push(n);
        assert(text::string_views(urls@) =~= text::string_views(old(urls)@).push(n@));
    }
}

/// Appends `t` to a last text block, or adds it as a new text block.
fn push_text_block(blocks: &mut Vec<ArticleBlock>, t: &str)
    ensures
        block_models(final(blocks)@) == with_text(block_models(old(blocks)@), t@),
{
    let ghost before = block_models(blocks@);
    if blocks.len() > 0 {
        let last = blocks.pop().unwrap();
        assert(block_models(blocks@) =~= before.drop_last());
        assert(last@ == before.last());
        match last {
            ArticleBlock::Text(mut prev) => {
                text::push_str(&mut prev, t);
                blocks.push(ArticleBlock::Text(prev));
                assert(block_models(blocks@) =~= before.drop_last().push(BlockModel::Text(before.last()->Text_0 + t@)));
            },
            other => {
                blocks.push(other);
                assert(block_models(blocks@) =~= before);
                blocks.push(ArticleBlock::Text(text::to_owned_string(t)));
                assert(block_models(blocks@) =~= before.push(BlockModel::Text(t@)));
            },
        }
    } else {
        blocks.push(ArticleBlock::Text(text::to_owned_string(t)));
        assert(block_models(blocks@) =~= before.push(BlockModel::Text(t@)));
    }
}

/// Adds an embedded block.
fn push_embedded(blocks: &mut Vec<ArticleBlock>, t: String)
    ensures
        block_models(final(blocks)@) == block_models(old(blocks)@).push(BlockModel::Embedded(t@)),
{
    blocks.push(ArticleBlock::Embedded(t));
    assert(block_models(blocks@) =~= block_models(old(blocks)@).push(BlockModel::Embedded(t@)));
}

/// Adds an image block.
fn push_image(blocks: &mut Vec<ArticleBlock>, url: String, alt: String)
    ensures
        block_models(final(blocks)@) == block_models(old(blocks)@).push(BlockModel::Image { url: url@, alt: alt@ }),
{
    blocks.push(ArticleBlock::Image { url, alt });
    assert(block_models(blocks@) =~= block_models(old(blocks)@).push(BlockModel::Image { url: url@, alt: alt@ }));
}

/// `[label id]`.
fn card_placeholder(label: &str, id: &str) -> (res: String)
    ensures
        res@ == card_text(label@, id@),
{
    let mut s = text::to_owned_string("[");
    text::push_str(&mut s, label);
    text::push_str(&mut s, " ");
    text::push_str(&mut s, id);
    text::push_str(&mut s, "]");
    s
}

// ---------------------------------------------------------------------------
// JSON content
// ---------------------------------------------------------------------------

/// Member `key` of `v` read as a string.
pub open spec fn str_member(v: JsonValue, key: Seq<char>) -> Option<Seq<char>> {
    match json::member(v, key) {
        Some(m) => json::as_str(m),
        None => None,
    }
}

/// The id of a card: its `id` member as a string, or as an integer written
/// in decimal; empty otherwise.
pub open spec fn json_card_id(card: JsonValue) -> Seq<char> {
    match json::member(card, "id"@) {
        Some(v) => match json::as_str(v) {
            Some(s) => s,
            None => match json::as_i64(v) {
                Some(n) => text::signed_decimal(n as int),
                None => seq![],
            },
        },
        None => seq![],
    }
}

/// One insert operation whose `insert` is an object: an image, a card or a
/// cut-off line.
pub open spec fn insert_object_step(d: Draft, insert: JsonValue) -> Draft {
    match json::member(insert, "native-image"@) {
        Some(image) => match str_member(image, "url"@) {
            Some(url) => Draft {
                blocks: d.blocks.push(BlockModel::Image {
                    url: text::normalized_url_spec(url),
                    alt: match str_member(image, "alt"@) { Some(a) => a, None => "文章图片"@ },
                }),
                urls: with_unique_url(d.urls, url),
            },
            None => d,
        },
        None => match json::member(insert, "video-card"@) {
            Some(card) => with_block(d, BlockModel::Embedded(card_text("视频"@, json_card_id(card)))),
            None => match json::member(insert, "article-card"@) {
                Some(card) => with_block(d, BlockModel::Embedded(card_text("文章"@, json_card_id(card)))),
                None => match json::member(insert, "live-card"@) {
                    Some(card) => with_block(d, BlockModel::Embedded(card_text("直播"@, json_card_id(card)))),
                    None => match json::member(insert, "vote-card"@) {
                        Some(card) => with_block(d, BlockModel::Embedded(card_text("投票"@, json_card_id(card)))),
                        None => if json::member(insert, "cut-off"@) is Some {
                            with_block(d, BlockModel::Embedded("────────"@))
                        } else {
                            d
                        },
                    },
                },
            },
        },
    }
}

/// One insert operation: text joins the text before it; an object is an
/// image, a card or a cut-off line; anything else is skipped.
pub open spec fn json_op_step(d: Draft, op: JsonValue) -> Draft {
    match json::member(op, "insert"@) {
        None => d,
        Some(insert) => match json::as_str(insert) {
            Some(t) => Draft { blocks: with_text(d.blocks, t), urls: d.urls },
            None => if insert is Object { insert_object_step(d, insert) } else { d },
        },
    }
}

/// The operations of a JSON article: its `ops` array, or none.
pub open spec fn json_ops(v: JsonValue) -> Seq<JsonValue> {
    match json::member(v, "ops"@) {
        Some(JsonValue::Array(items)) => items@,
        _ => seq![],
    }
}

/// The first `k` operations applied in turn.
pub open spec fn json_draft(ops: Seq<JsonValue>, k: int) -> Draft
    decreases k,
{
    if k <= 0 {
        empty_draft()
    } else {
        json_op_step(json_draft(ops, k - 1), ops[k - 1])
    }
}

pub open spec fn document_of(d: Draft) -> DocumentModel {
    DocumentModel { body: body_of(d.blocks), image_urls: d.urls, blocks: d.blocks }
}

/// The document of JSON content, given what parsing the content gave: text
/// that is no JSON is one text block as it is.
pub open spec fn json_document(content: Seq<char>, parsed: Option<JsonValue>) -> DocumentModel {
    match parsed {
        None => DocumentModel {
            body: content,
            image_urls: seq![],
            blocks: seq![BlockModel::Text(content)],
        },
        Some(v) => document_of(json_draft(json_ops(v), json_ops(v).len() as int)),
    }
}

/// Adds the placeholder of a JSON card.
fn push_json_card(blocks: &mut Vec<ArticleBlock>, label: &str, card: &JsonValue)
    ensures
        block_models(final(blocks)@) == block_models(old(blocks)@).push(
            BlockModel::Embedded(card_text(label@, json_card_id(*card))),
        ),
{
    let id: String = match card.get("id") {
        Some(v) => match v.as_str() {
            Some(s) => text::to_owned_string(s),
            None => match v.as_i64() {
                Some(n) => text::i64_to_string(n),
                None => String::new(),
            },
        },
        None => String::new(),
    };
    push_embedded(blocks, card_placeholder(label, id.as_str()));
}

/// Applies an insert operation whose `insert` is an object.
fn insert_object(blocks: &mut Vec<ArticleBlock>, urls: &mut Vec<String>, insert: &JsonValue)
    ensures
        draft_of(final(blocks)@, final(urls)@) == insert_object_step(draft_of(old(blocks)@, old(urls)@), *insert),
{
    if let Some(image) = insert.get("native-image") {
        let url = match image.get("url") {
            Some(u) => u.as_str(),
            None => None,
        };
        if let Some(url) = url {
            push_unique_url(urls, url);
            let alt = match image.get("alt") {
                Some(a) => match a.as_str() {
                    Some(a) => text::to_owned_string(a),
                    None => text::to_owned_string("文章图片"),
                },
                None => text::to_owned_string("文章图片"),
            };
            push_image(blocks, text::normalized_url(url), alt);
        }
    } else if let Some(card) = insert.get("video-card") {
        push_json_card(blocks, "视频", card);
    } else if let Some(card) = insert.get("article-card") {
        push_json_card(blocks, "文章", card);
    } else if let Some(card) = insert.get("live-card") {
        push_json_card(blocks, "直播", card);
    } else if let Some(card) = insert.get("vote-card") {
        push_json_card(blocks, "投票", card);
    } else if insert.get("cut-off").is_some() {
        push_embedded(blocks, text::to_owned_string("────────"));
    }
}

/// Applies one insert operation.
fn json_op(blocks: &mut Vec<ArticleBlock>, urls: &mut Vec<String>, op: &JsonValue)
    ensures
        draft_of(final(blocks)@, final(urls)@) == json_op_step(draft_of(old(blocks)@, old(urls)@), *op),
{
    if let Some(insert) = op.get("insert") {
        if let Some(t) = insert.as_str() {
            push_text_block(blocks, t);
        } else if let JsonValue::Object(_) = insert {
            insert_object(blocks, urls, insert);
        }
    }
}

/// The document of JSON content, given what parsing it gave.
pub fn document_from_json_value(content: &str, parsed: &Option<JsonValue>) -> (res: ArticleDocument)
    ensures
        res@ == json_document(content@, *parsed),
{
    match parsed {
        None => {
            let mut blocks: Vec<ArticleBlock> = Vec::new();
            blocks.push(ArticleBlock::Text(text::to_owned_string(content)));
            let res = ArticleDocument { body: text::to_owned_string(content), image_urls: Vec::new(), blocks };
            assert(res@.image_urls =~= Seq::<Seq<char>>::empty());
            assert(res@.blocks =~= seq![BlockModel::Text(content@)]);
            res
        },
        Some(value) => {
            let mut blocks: Vec<ArticleBlock> = Vec::new();
            let mut urls: Vec<String> = Vec::new();
            let ghost ops = json_ops(*value);
            proof {
                assert(draft_of(blocks@, urls@) == empty_draft()) by {
                    assert(block_models(blocks@) =~= Seq::<BlockModel>::empty());
                    assert(text::string_views(urls@) =~= Seq::<Seq<char>>::empty());
                }
            }
            if let Some(list) = value.get("ops") {
                if let Some(items) = list.as_array() {
                    assert(ops == items@);
                    let mut i: usize = 0;
                    while i < items.len()
                        invariant
                            i <= items.len(),
                            ops == items@,
                            draft_of(blocks@, urls@) == json_draft(ops, i as int),
                        decreases items.len() - i,
                    {
                        json_op(&mut blocks, &mut urls, &items[i]);
                        i = i + 1;
                    }
                }
            }
            assert(draft_of(blocks@, urls@) == json_draft(ops, ops.len() as int));
            let body = document_body(&blocks);
            ArticleDocument { body, image_urls: urls, blocks }
        },
    }
}

proof fn lemma_member_of_same(x: JsonValue, y: JsonValue, key: Seq<char>)
    requires
        json::same_json(x, y),
    ensures
        json::same_opt_json(json::member(x, key), json::member(y, key)),
        json::member(x, key) is Some ==> json::same_json(json::member(x, key).unwrap(), json::member(y, key).unwrap()),
{
    json::lemma_same_json_reads(x, y);
    assert(json::same_opt_json(json::member(x, key), json::member(y, key)));
}

proof fn lemma_str_member_same(x: JsonValue, y: JsonValue, key: Seq<char>)
    requires
        json::same_json(x, y),
    ensures
        str_member(x, key) == str_member(y, key),
{
    lemma_member_of_same(x, y, key);
    if let Some(m) = json::member(x, key) {
        json::lemma_same_json_reads(m, json::member(y, key).unwrap());
    }
}

proof fn lemma_card_id_same(x: JsonValue, y: JsonValue)
    requires
        json::same_json(x, y),
    ensures
        json_card_id(x) == json_card_id(y),
{
    lemma_member_of_same(x, y, "id"@);
    if let Some(m) = json::member(x, "id"@) {
        json::lemma_same_json_reads(m, json::member(y, "id"@).unwrap());
    }
}

proof fn lemma_insert_object_same(d: Draft, x: JsonValue, y: JsonValue)
    requires
        json::same_json(x, y),
    ensures
        insert_object_step(d, x) == insert_object_step(d, y),
{
    lemma_member_of_same(x, y, "native-image"@);
    lemma_member_of_same(x, y, "video-card"@);
    lemma_member_of_same(x, y, "article-card"@);
    lemma_member_of_same(x, y, "live-card"@);
    lemma_member_of_same(x, y, "vote-card"@);
    lemma_member_of_same(x, y, "cut-off"@);
    if let Some(img) = json::member(x, "native-image"@) {
        let img2 = json::member(y, "native-image"@).unwrap();
        lemma_str_member_same(img, img2, "url"@);
        lemma_str_member_same(img, img2, "alt"@);
    }
    if let Some(c) = json::member(x, "video-card"@) {
        lemma_card_id_same(c, json::member(y, "video-card"@).unwrap());
    }
    if let Some(c) = json::member(x, "article-card"@) {
        lemma_card_id_same(c, json::member(y, "article-card"@).unwrap());
    }
    if let Some(c) = json::member(x, "live-card"@) {
        lemma_card_id_same(c, json::member(y, "live-card"@).unwrap());
    }
    if let Some(c) = json::member(x, "vote-card"@) {
        lemma_card_id_same(c, json::member(y, "vote-card"@).unwrap());
    }
}

proof fn lemma_json_op_same(d: Draft, x: JsonValue, y: JsonValue)
    requires
        json::same_json(x, y),
    ensures
        json_op_step(d, x) == json_op_step(d, y),
{
    lemma_member_of_same(x, y, "insert"@);
    if let Some(i) = json::member(x, "insert"@) {
        let i2 = json::member(y, "insert"@).unwrap();
        json::lemma_same_json_reads(i, i2);
        lemma_insert_object_same(d, i, i2);
    }
}

proof fn lemma_json_draft_same(xs: Seq<JsonValue>, ys: Seq<JsonValue>, k: int)
    requires
        xs.len() == ys.len(),
        k <= xs.len(),
        forall|i: int| 0 <= i < xs.len() ==> json::same_json(#[trigger] xs[i], ys[i]),
    ensures
        json_draft(xs, k) == json_draft(ys, k),
    decreases k,
{
    if k > 0 {
        lemma_json_draft_same(xs, ys, k - 1);
        lemma_json_op_same(json_draft(xs, k - 1), xs[k - 1], ys[k - 1]);
    }
}

/// How a card of `label` with id `id` reads: `[label id]`.
proof fn lemma_card_text(label: Seq<char>, id: Seq<char>, whole: Seq<char>)
    requires
        whole == "["@ + label + " "@,
    ensures
        card_text(label, id) == whole + id + "]"@,
{
    assert(card_text(label, id) =~= whole + id + "]"@);
}

/// `next` is `d` with one more block, the card `opening` + id + "]", and the
/// same image URLs.
pub open spec fn card_added(d: Draft, next: Draft, opening: Seq<char>, c: JsonValue) -> bool {
    next.blocks == d.blocks.push(BlockModel::Embedded(opening + json_card_id(c) + "]"@)) && next.urls == d.urls
}

/// In a JSON article, an operation whose `insert` is an object adds one
/// block for the first of its members that it knows: `native-image` an
/// image of that URL (with its `alt`, else "文章图片") and records the URL;
/// `video-card`, `article-card`, `live-card` and `vote-card` a card shown
/// as "[视频 id]", "[文章 id]", "[直播 id]" and "[投票 id]"; `cut-off` a
/// line. A card's id is its `id` member when that is a string.
pub proof fn lemma_json_insert_object(d: Draft, op: JsonValue, x: JsonValue)
    requires
        json::member(op, "insert"@) == Some(x),
        x is Object,
    ensures
        json::member(x, "native-image"@) is Some ==> ({
            let img = json::member(x, "native-image"@).unwrap();
            let next = json_op_step(d, op);
            (json::member(img, "url"@) is Some && json::as_str(json::member(img, "url"@).unwrap()) is Some) ==> {
                let url = json::as_str(json::member(img, "url"@).unwrap()).unwrap();
                &&& next.blocks == d.blocks.push(BlockModel::Image {
                    url: text::normalized_url_spec(url),
                    alt: match json::member(img, "alt"@) {
                        Some(a) => match json::as_str(a) { Some(t) => t, None => "文章图片"@ },
                        None => "文章图片"@,
                    },
                })
                &&& next.urls == with_unique_url(d.urls, url)
            }
        }),
        (json::member(x, "native-image"@) is None && json::member(x, "video-card"@) is Some)
            ==> card_added(d, json_op_step(d, op), "[视频 "@, json::member(x, "video-card"@).unwrap()),
        (json::member(x, "native-image"@) is None && json::member(x, "video-card"@) is None
            && json::member(x, "article-card"@) is Some)
            ==> card_added(d, json_op_step(d, op), "[文章 "@, json::member(x, "article-card"@).unwrap()),
        (json::member(x, "native-image"@) is None && json::member(x, "video-card"@) is None
            && json::member(x, "article-card"@) is None && json::member(x, "live-card"@) is Some)
            ==> card_added(d, json_op_step(d, op), "[直播 "@, json::member(x, "live-card"@).unwrap()),
        (json::member(x, "native-image"@) is None && json::member(x, "video-card"@) is None
            && json::member(x, "article-card"@) is None && json::member(x, "live-card"@) is None
            && json::member(x, "vote-card"@) is Some)
            ==> card_added(d, json_op_step(d, op), "[投票 "@, json::member(x, "vote-card"@).unwrap()),
        (json::member(x, "native-image"@) is None && json::member(x, "video-card"@) is None
            && json::member(x, "article-card"@) is None && json::member(x, "live-card"@) is None
            && json::member(x, "vote-card"@) is None) ==> json_op_step(d, op) == if json::member(x, "cut-off"@) is Some {
                with_block(d, BlockModel::Embedded("────────"@))
            } else {
                d
            },
{
    reveal_strlit("[");
    reveal_strlit(" ");
    reveal_strlit("视频");
    reveal_strlit("文章");
    reveal_strlit("直播");
    reveal_strlit("投票");
    reveal_strlit("[视频 ");
    reveal_strlit("[文章 ");
    reveal_strlit("[直播 ");
    reveal_strlit("[投票 ");
    assert(json::as_str(x) is None);
    if let Some(c) = json::member(x, "video-card"@) {
        assert("[视频 "@ =~= "["@ + "视频"@ + " "@);
        lemma_card_text("视频"@, json_card_id(c), "[视频 "@);
    }
    if let Some(c) = json::member(x, "article-card"@) {
        assert("[文章 "@ =~= "["@ + "文章"@ + " "@);
        lemma_card_text("文章"@, json_card_id(c), "[文章 "@);
    }
    if let Some(c) = json::member(x, "live-card"@) {
        assert("[直播 "@ =~= "["@ + "直播"@ + " "@);
        lemma_card_text("直播"@, json_card_id(c), "[直播 "@);
    }
    if let Some(c) = json::member(x, "vote-card"@) {
        assert("[投票 "@ =~= "["@ + "投票"@ + " "@);
        lemma_card_text("投票"@, json_card_id(c), "[投票 "@);
    }
}

/// A card's id is its `id` member when that is a string, the decimal
/// digits of it when it is an integer, and empty otherwise.
pub proof fn lemma_card_id(c: JsonValue)
    ensures
        (json::member(c, "id"@) is Some && json::as_str(json::member(c, "id"@).unwrap()) is Some)
            ==> json_card_id(c) == json::as_str(json::member(c, "id"@).unwrap()).unwrap(),
        (json::member(c, "id"@) is Some && json::as_str(json::member(c, "id"@).unwrap()) is None
            && json::as_i64(json::member(c, "id"@).unwrap()) is Some)
            ==> json_card_id(c) == text::signed_decimal(json::as_i64(json::member(c, "id"@).unwrap()).unwrap() as int),
        json::member(c, "id"@) is None ==> json_card_id(c) == Seq::<char>::empty(),
{
}

/// In an HTML article, an image stands for a card by its class: the first
/// of `video-card`, `article-card`, `fanju-card`, `live-card`,
/// `music-card` and `vote-card` that its class holds gives the card
/// "[视频 id]", "[文章 id]", "[番剧 id]", "[直播 id]", "[音乐 id]" or
/// "[投票 id]", the id being its `aid`, else its `data-aid`. Any other image
/// with a URL (its `data-src`, else its `src`) adds an image block and
/// records the URL.
pub proof fn lemma_html_image_cards(d: Draft, img: HtmlImage)
    ensures
        ({
            let next = image_step(d, img);
            let classes = match img.class { Some(c) => c@, None => seq![] };
            let id = match img.aid {
                Some(a) => a@,
                None => match img.data_aid { Some(a) => a@, None => seq![] },
            };
            let url = match img.data_src {
                Some(u) => u@,
                None => match img.src { Some(u) => u@, None => seq![] },
            };
            &&& (text::seq_contains(classes, "video-card"@))
                ==> next.blocks == d.blocks.push(BlockModel::Embedded("[视频 "@ + id + "]"@)) && next.urls == d.urls
            &&& (!text::seq_contains(classes, "video-card"@) && text::seq_contains(classes, "article-card"@))
                ==> next.blocks == d.blocks.push(BlockModel::Embedded("[文章 "@ + id + "]"@)) && next.urls == d.urls
            &&& (!text::seq_contains(classes, "video-card"@) && !text::seq_contains(classes, "article-card"@) && text::seq_contains(classes, "fanju-card"@))
                ==> next.blocks == d.blocks.push(BlockModel::Embedded("[番剧 "@ + id + "]"@)) && next.urls == d.urls
            &&& (!text::seq_contains(classes, "video-card"@) && !text::seq_contains(classes, "article-card"@) && !text::seq_contains(classes, "fanju-card"@) && text::seq_contains(classes, "live-card"@))
                ==> next.blocks == d.blocks.push(BlockModel::Embedded("[直播 "@ + id + "]"@)) && next.urls == d.urls
            &&& (!text::seq_contains(classes, "video-card"@) && !text::seq_contains(classes, "article-card"@) && !text::seq_contains(classes, "fanju-card"@) && !text::seq_contains(classes, "live-card"@) && text::seq_contains(classes, "music-card"@))
                ==> next.blocks == d.blocks.push(BlockModel::Embedded("[音乐 "@ + id + "]"@)) && next.urls == d.urls
            &&& (!text::seq_contains(classes, "video-card"@) && !text::seq_contains(classes, "article-card"@) && !text::seq_contains(classes, "fanju-card"@) && !text::seq_contains(classes, "live-card"@) && !text::seq_contains(classes, "music-card"@) && text::seq_contains(classes, "vote-card"@))
                ==> next.blocks == d.blocks.push(BlockModel::Embedded("[投票 "@ + id + "]"@)) && next.urls == d.urls
            &&& (!text::seq_contains(classes, "video-card"@) && !text::seq_contains(classes, "article-card"@) && !text::seq_contains(classes, "fanju-card"@) && !text::seq_contains(classes, "live-card"@) && !text::seq_contains(classes, "music-card"@) && !text::seq_contains(classes, "vote-card"@) && url.len() > 0) ==> {
                &&& next.blocks == d.blocks.push(BlockModel::Image {
                    url: text::normalized_url_spec(url),
                    alt: match img.alt { Some(a) => a@, None => "文章图片"@ },
                })
                &&& next.urls == with_unique_url(d.urls, url)
            }
            &&& (!text::seq_contains(classes, "video-card"@) && !text::seq_contains(classes, "article-card"@) && !text::seq_contains(classes, "fanju-card"@) && !text::seq_contains(classes, "live-card"@) && !text::seq_contains(classes, "music-card"@) && !text::seq_contains(classes, "vote-card"@) && url.len() == 0) ==> next == d
        }),
{
    let id = match img.aid {
        Some(a) => a@,
        None => match img.data_aid { Some(a) => a@, None => seq![] },
    };
    reveal_strlit("[");
    reveal_strlit(" ");
    reveal_strlit("视频");
    reveal_strlit("[视频 ");
    assert("[视频 "@ =~= "["@ + "视频"@ + " "@);
    lemma_card_text("视频"@, id, "[视频 "@);
    reveal_strlit("文章");
    reveal_strlit("[文章 ");
    assert("[文章 "@ =~= "["@ + "文章"@ + " "@);
    lemma_card_text("文章"@, id, "[文章 "@);
    reveal_strlit("番剧");
    reveal_strlit("[番剧 ");
    assert("[番剧 "@ =~= "["@ + "番剧"@ + " "@);
    lemma_card_text("番剧"@, id, "[番剧 "@);
    reveal_strlit("直播");
    reveal_strlit("[直播 ");
    assert("[直播 "@ =~= "["@ + "直播"@ + " "@);
    lemma_card_text("直播"@, id, "[直播 "@);
    reveal_strlit("音乐");
    reveal_strlit("[音乐 ");
    assert("[音乐 "@ =~= "["@ + "音乐"@ + " "@);
    lemma_card_text("音乐"@, id, "[音乐 "@);
    reveal_strlit("投票");
    reveal_strlit("[投票 ");
    assert("[投票 "@ =~= "["@ + "投票"@ + " "@);
    lemma_card_text("投票"@, id, "[投票 "@);
}

/// The number of images among the first `k` blocks is the number of image
/// blocks in that prefix.
pub proof fn lemma_image_count(blocks: Seq<BlockModel>, k: int)
    requires
        0 <= k <= blocks.len(),
    ensures
        image_count(blocks, k) == blocks.take(k).filter(|b: BlockModel| b is Image).len(),
    decreases k,
{
    reveal(Seq::filter);
    if k > 0 {
        lemma_image_count(blocks, k - 1);
        assert(blocks.take(k).drop_last() =~= blocks.take(k - 1));
        assert(blocks.take(k).last() == blocks[k - 1]);
    } else {
        assert(blocks.take(0) =~= Seq::<BlockModel>::empty());
    }
}

/// What a block shows in the body: a text block its text trimmed, a card
/// its line as it is, and an image "[图片 n]", where it is image number `n`
/// of the document counting from 1.
pub proof fn lemma_body_pieces(blocks: Seq<BlockModel>, i: int)
    requires
        0 <= i < blocks.len(),
    ensures
        blocks[i] matches BlockModel::Text(t) ==> body_piece(blocks, i) == text::trim(t),
        blocks[i] matches BlockModel::Embedded(t) ==> body_piece(blocks, i) == t,
        blocks[i] is Image ==> body_piece(blocks, i) == "[图片 "@
            + text::decimal(blocks.take(i + 1).filter(|b: BlockModel| b is Image).len()) + "]"@,
        blocks[i] is Image ==> blocks.take(i + 1).filter(|b: BlockModel| b is Image).len()
            == blocks.take(i).filter(|b: BlockModel| b is Image).len() + 1,
{
    lemma_image_count(blocks, i + 1);
    lemma_image_count(blocks, i);
}

/// A text element of an HTML article: blank text adds nothing; otherwise it
/// adds one text block, its trimmed text marked by its tag (`# ` for
/// `h1`..`h4`, `> ` for `blockquote`, `• ` for `li`, fenced with ``` for
/// `pre`, unmarked otherwise), followed by ` (href)` for each non-empty link
/// target in order; no image URL is recorded.
pub proof fn lemma_html_text_block(d: Draft, name: String, text: String, hrefs: Vec<String>)
    ensures
        ({
            let t = text::trim(text@);
            let next = html_step(d, HtmlBlock::Text { name, text, hrefs });
            let line = if name@ == "h1"@ || name@ == "h2"@ || name@ == "h3"@ || name@ == "h4"@ {
                "# "@ + t
            } else if name@ == "blockquote"@ {
                "> "@ + t
            } else if name@ == "li"@ {
                "• "@ + t
            } else if name@ == "pre"@ {
                "```\n"@ + t + "\n```"@
            } else {
                t
            };
            &&& t.len() == 0 ==> next == d
            &&& t.len() > 0 ==> next.urls == d.urls
                && next.blocks == d.blocks.push(BlockModel::Text(with_links(line, text::string_views(hrefs@))))
        }),
{
}

/// Link targets follow the line in order, each as ` (href)`; empty ones are
/// left out.
pub proof fn lemma_with_links(line: Seq<char>, hrefs: Seq<Seq<char>>, h: Seq<char>)
    ensures
        with_links(line, seq![]) == line,
        with_links(line, hrefs.push(h)) == if h.len() > 0 {
            with_links(line, hrefs) + " ("@ + h + ")"@
        } else {
            with_links(line, hrefs)
        },
{
    assert(hrefs.push(h).drop_last() =~= hrefs);
}

/// In a JSON article, an operation whose `insert` is a string joins that
/// text to a text block just before it, or starts a new text block; an
/// operation without `insert`, or whose `insert` is neither a string nor an
/// object, changes nothing.
pub proof fn lemma_json_insert_text(d: Draft, op: JsonValue)
    ensures
        json::member(op, "insert"@) is None ==> json_op_step(d, op) == d,
        (json::member(op, "insert"@) is Some && json::as_str(json::member(op, "insert"@).unwrap()) is Some) ==> ({
            let t = json::as_str(json::member(op, "insert"@).unwrap()).unwrap();
            let next = json_op_step(d, op);
            &&& next.urls == d.urls
            &&& (d.blocks.len() > 0 && d.blocks.last() is Text) ==> next.blocks
                == d.blocks.drop_last().push(BlockModel::Text(d.blocks.last()->Text_0 + t))
            &&& !(d.blocks.len() > 0 && d.blocks.last() is Text) ==> next.blocks == d.blocks.push(BlockModel::Text(t))
        }),
        (json::member(op, "insert"@) is Some && json::as_str(json::member(op, "insert"@).unwrap()) is None
            && !(json::member(op, "insert"@).unwrap() is Object)) ==> json_op_step(d, op) == d,
{
}

/// The document of JSON content depends on the JSON alone: two parses that
/// hold the same JSON give the same document.
pub proof fn lemma_json_document_same(content: Seq<char>, a: Option<JsonValue>, b: Option<JsonValue>)
    requires
        json::same_opt_json(a, b),
    ensures
        json_document(content, a) == json_document(content, b),
{
    if let (Some(x), Some(y)) = (a, b) {
        lemma_member_of_same(x, y, "ops"@);
        let (xs, ys) = (json_ops(x), json_ops(y));
        if let Some(JsonValue::Array(items)) = json::member(x, "ops"@) {
            json::lemma_same_json_reads(JsonValue::Array(items), json::member(y, "ops"@).unwrap());
        }
        lemma_json_draft_same(xs, ys, xs.len() as int);
    }
}

/// The document of JSON content.
pub fn document_from_json(content: &str) -> (res: ArticleDocument)
    ensures
        res@ == json_document(content@, json::json_of_text(content@)),
{
    let parsed = json::parse_json(content);
    let res = document_from_json_value(content, &parsed);
    proof { lemma_json_document_same(content@, parsed, json::json_of_text(content@)); }
    res
}

// ---------------------------------------------------------------------------
// HTML content
// ---------------------------------------------------------------------------

/// What the logic reads of an `img` element: its attributes.
pub struct HtmlImage {
    pub class: Option<String>,
    pub aid: Option<String>,
    pub data_aid: Option<String>,
    pub data_src: Option<String>,
    pub src: Option<String>,
    pub alt: Option<String>,
}

/// One element of the fragment that is a block (`h1`..`h4`, `p`,
/// `blockquote`, `li`, `pre`, `figure`, `img`), in document order.
pub enum HtmlBlock {
    /// A `figure`, with the first `img` inside it.
    Figure(Option<HtmlImage>),
    /// An `img`, and whether a `figure` encloses it.
    Image { image: HtmlImage, in_figure: bool },
    /// Any other block: its tag name, its text, and the `href` of each link
    /// (`a[href]`) inside it.
    Text { name: String, text: String, hrefs: Vec<String> },
}

pub open spec fn or_empty(o: Option<String>) -> Seq<char> {
    match o {
        Some(s) => s@,
        None => seq![],
    }
}

/// The placeholder of an image that stands for an embedded card, found by
/// its class; the id is its `aid`, else its `data-aid`.
pub open spec fn embedded_placeholder(img: HtmlImage) -> Option<Seq<char>> {
    let classes = or_empty(img.class);
    let id = match img.aid {
        Some(a) => a@,
        None => or_empty(img.data_aid),
    };
    if text::seq_contains(classes, "video-card"@) {
        Some(card_text("视频"@, id))
    } else if text::seq_contains(classes, "article-card"@) {
        Some(card_text("文章"@, id))
    } else if text::seq_contains(classes, "fanju-card"@) {
        Some(card_text("番剧"@, id))
    } else if text::seq_contains(classes, "live-card"@) {
        Some(card_text("直播"@, id))
    } else if text::seq_contains(classes, "music-card"@) {
        Some(card_text("音乐"@, id))
    } else if text::seq_contains(classes, "vote-card"@) {
        Some(card_text("投票"@, id))
    } else {
        None
    }
}

/// The URL of an image: its `data-src`, else its `src`; none when that is
/// empty.
pub open spec fn image_url(img: HtmlImage) -> Option<Seq<char>> {
    let u = match img.data_src {
        Some(s) => s@,
        None => or_empty(img.src),
    };
    if u.len() > 0 { Some(u) } else { None }
}

/// An image: a card placeholder, or an image block with its URL recorded.
pub open spec fn image_step(d: Draft, img: HtmlImage) -> Draft {
    match embedded_placeholder(img) {
        Some(p) => with_block(d, BlockModel::Embedded(p)),
        None => match image_url(img) {
            Some(url) => Draft {
                blocks: d.blocks.push(BlockModel::Image {
                    url: text::normalized_url_spec(url),
                    alt: match img.alt { Some(a) => a@, None => "文章图片"@ },
                }),
                urls: with_unique_url(d.urls, url),
            },
            None => d,
        },
    }
}

/// A text line marked by its tag: headings with `#`, quotes with `>`, list
/// items with a bullet, preformatted text fenced.
pub open spec fn line_of(name: Seq<char>, t: Seq<char>) -> Seq<char> {
    if name == "h1"@ || name == "h2"@ || name == "h3"@ || name == "h4"@ {
        "# "@ + t
    } else if name == "blockquote"@ {
        "> "@ + t
    } else if name == "li"@ {
        "• "@ + t
    } else if name == "pre"@ {
        "```\n"@ + t + "\n```"@
    } else {
        t
    }
}

/// `line` followed by ` (href)` for each non-empty link target.
pub open spec fn with_links(line: Seq<char>, hrefs: Seq<Seq<char>>) -> Seq<char>
    decreases hrefs.len(),
{
    if hrefs.len() == 0 {
        line
    } else {
        let prev = with_links(line, hrefs.drop_last());
        if hrefs.last().len() > 0 {
            prev + " ("@ + hrefs.last() + ")"@
        } else {
            prev
        }
    }
}

/// One block element.
pub open spec fn html_step(d: Draft, b: HtmlBlock) -> Draft {
    match b {
        HtmlBlock::Figure(image) => match image {
            Some(img) => image_step(d, img),
            None => d,
        },
        HtmlBlock::Image { image, in_figure } => if in_figure { d } else { image_step(d, image) },
        HtmlBlock::Text { name, text, hrefs } => {
            let t = text::trim(text@);
            if t.len() == 0 {
                d
            } else {
                with_block(d, BlockModel::Text(with_links(line_of(name@, t), text::string_views(hrefs@))))
            }
        },
    }
}

/// The first `k` block elements in turn.
pub open spec fn html_draft(blocks: Seq<HtmlBlock>, k: int) -> Draft
    decreases k,
{
    if k <= 0 {
        empty_draft()
    } else {
        html_step(html_draft(blocks, k - 1), blocks[k - 1])
    }
}

/// The document of an HTML fragment from its block elements and its whole
/// text: where no block yields anything, the whole text, trimmed, if any.
pub open spec fn html_document(blocks: Seq<HtmlBlock>, root_text: Seq<char>) -> DocumentModel {
    let d = html_draft(blocks, blocks.len() as int);
    let t = text::trim(root_text);
    if d.blocks.len() == 0 && t.len() > 0 {
        document_of(with_block(d, BlockModel::Text(t)))
    } else {
        document_of(d)
    }
}

fn copy_option(o: &Option<String>) -> (res: Option<String>)
    ensures
        res == *o,
{
    match o {
        Some(s) => Some(s.clone()),
        None => None,
    }
}

fn or_empty_str(o: &Option<String>) -> (res: &str)
    ensures
        res@ == or_empty(*o),
{
    match o {
        Some(s) => s.as_str(),
        None => {
            proof {
                reveal_strlit("");
            }
            ""
        },
    }
}

/// `[label id]` when `classes` holds `class`.
fn card_if(classes: &[char], class: &str, label: &str, id: &str) -> (res: Option<String>)
    ensures
        match res {
            Some(p) => text::seq_contains(classes@, class@) && p@ == card_text(label@, id@),
            None => !text::seq_contains(classes@, class@),
        },
{
    let needle = text::chars_of(class);
    if text::contains(classes, &needle) {
        Some(card_placeholder(label, id))
    } else {
        None
    }
}

/// The card placeholder that an image stands for, if any.
fn placeholder_of(img: &HtmlImage) -> (res: Option<String>)
    ensures
        match res {
            Some(p) => embedded_placeholder(*img) == Some(p@),
            None => embedded_placeholder(*img) is None,
        },
{
    let classes = text::chars_of(or_empty_str(&img.class));
    let id = match &img.aid {
        Some(a) => a.as_str(),
        None => or_empty_str(&img.data_aid),
    };
    if let Some(p) = card_if(&classes, "video-card", "视频", id) {
        return Some(p);
    }
    if let Some(p) = card_if(&classes, "article-card", "文章", id) {
        return Some(p);
    }
    if let Some(p) = card_if(&classes, "fanju-card", "番剧", id) {
        return Some(p);
    }
    if let Some(p) = card_if(&classes, "live-card", "直播", id) {
        return Some(p);
    }
    if let Some(p) = card_if(&classes, "music-card", "音乐", id) {
        return Some(p);
    }
    card_if(&classes, "vote-card", "投票", id)
}

/// Adds what an image yields.
fn push_html_image(blocks: &mut Vec<ArticleBlock>, urls: &mut Vec<String>, img: &HtmlImage)
    ensures
        draft_of(final(blocks)@, final(urls)@) == image_step(draft_of(old(blocks)@, old(urls)@), *img),
{
    if let Some(p) = placeholder_of(img) {
        push_embedded(blocks, p);
        return;
    }
    let url = match &img.data_src {
        Some(s) => s.as_str(),
        None => or_empty_str(&img.src),
    };
    if !url.is_empty() {
        push_unique_url(urls, url);
        let alt = match &img.alt {
            Some(a) => a.clone(),
            None => text::to_owned_string("文章图片"),
        };
        push_image(blocks, text::normalized_url(url), alt);
    }
}

/// The text line of a block element with its links.
fn text_line(name: &str, t: &str, hrefs: &Vec<String>) -> (res: String)
    ensures
        res@ == with_links(line_of(name@, t@), text::string_views(hrefs@)),
{
    let mut line = if text::str_eq(name, "h1") || text::str_eq(name, "h2") || text::str_eq(name, "h3")
        || text::str_eq(name, "h4") {
        let mut l = text::to_owned_string("# ");
        text::push_str(&mut l, t);
        l
    } else if text::str_eq(name, "blockquote") {
        let mut l = text::to_owned_string("> ");
        text::push_str(&mut l, t);
        l
    } else if text::str_eq(name, "li") {
        let mut l = text::to_owned_string("• ");
        text::push_str(&mut l, t);
        l
    } else if text::str_eq(name, "pre") {
        let mut l = text::to_owned_string("```\n");
        text::push_str(&mut l, t);
        text::push_str(&mut l, "\n```");
        l
    } else {
        text::to_owned_string(t)
    };
    let ghost start = line@;
    let ghost hs = text::string_views(hrefs@);
    let mut i: usize = 0;
    while i < hrefs.len()
        invariant
            i <= hrefs.len(),
            hs == text::string_views(hrefs@),
            line@ == with_links(start, hs.take(i as int)),
        decreases hrefs.len() - i,
    {
        assert(hs.take(i + 1).drop_last() =~= hs.take(i as int));
        assert(hs.take(i + 1).last() == hrefs@[i as int]@);
        if !hrefs[i].as_str().is_empty() {
            text::push_str(&mut line, " (");
            text::push_str(&mut line, hrefs[i].as_str());
            text::push_str(&mut line, ")");
        }
        i = i + 1;
    }
    assert(hs.take(hrefs.len() as int) =~= hs);
    line
}

/// Adds what a block element yields.
fn push_html_block(blocks: &mut Vec<ArticleBlock>, urls: &mut Vec<String>, b: &HtmlBlock)
    ensures
        draft_of(final(blocks)@, final(urls)@) == html_step(draft_of(old(blocks)@, old(urls)@), *b),
{
    match b {
        HtmlBlock::Figure(image) => {
            if let Some(img) = image {
                push_html_image(blocks, urls, img);
            }
        },
        HtmlBlock::Image { image, in_figure } => {
            if !*in_figure {
                push_html_image(blocks, urls, image);
            }
        },
        HtmlBlock::Text { name, text, hrefs } => {
            let chars = text::chars_of(text.as_str());
            let trimmed = text::string_from_chars(&text::trimmed(&chars));
            if !trimmed.as_str().is_empty() {
                let line = text_line(name.as_str(), trimmed.as_str(), hrefs);
                blocks.push(ArticleBlock::Text(line));
                assert(block_models(blocks@) =~= block_models(old(blocks)@).push(BlockModel::Text(line@)));
            }
        },
    }
}

/// The document of an HTML fragment, from its block elements and its whole
/// text.
pub fn document_from_html_blocks(elements: &Vec<HtmlBlock>, root_text: &str) -> (res: ArticleDocument)
    ensures
        res@ == html_document(elements@, root_text@),
{
    let mut blocks: Vec<ArticleBlock> = Vec::new();
    let mut urls: Vec<String> = Vec::new();
    proof {
        assert(draft_of(blocks@, urls@) == empty_draft()) by {
            assert(block_models(blocks@) =~= Seq::<BlockModel>::empty());
            assert(text::string_views(urls@) =~= Seq::<Seq<char>>::empty());
        }
    }
    let mut i: usize = 0;
    while i < elements.len()
        invariant
            i <= elements.len(),
            draft_of(blocks@, urls@) == html_draft(elements@, i as int),
        decreases elements.len() - i,
    {
        push_html_block(&mut blocks, &mut urls, &elements[i]);
        i = i + 1;
    }
    if blocks.len() == 0 {
        let chars = text::chars_of(root_text);
        let t = text::string_from_chars(&text::trimmed(&chars));
        if !t.as_str().is_empty() {
            blocks.push(ArticleBlock::Text(t));
            assert(block_models(blocks@) =~= seq![BlockModel::Text(t@)]);
            assert(html_draft(elements@, elements.len() as int).blocks =~= Seq::<BlockModel>::empty());
        }
    }
    let body = document_body(&blocks);
    ArticleDocument { body, image_urls: urls, blocks }
}

// ---------------------------------------------------------------------------
// Reading an HTML fragment with scraper
// ---------------------------------------------------------------------------

/// The selector of the block elements.
pub open spec fn block_selector() -> Seq<char> {
    "h1,h2,h3,h4,p,blockquote,li,pre,figure,img"@
}

pub open spec fn opt_text(o: Option<String>) -> Option<Seq<char>> {
    match o {
        Some(s) => Some(s@),
        None => None,
    }
}

/// `img` holds the attributes of the element at `p`.
pub open spec fn image_read(c: Seq<char>, p: Seq<StepModel>, img: HtmlImage) -> bool {
    &&& opt_text(img.class) == html::html_attr(c, p, "class"@)
    &&& opt_text(img.aid) == html::html_attr(c, p, "aid"@)
    &&& opt_text(img.data_aid) == html::html_attr(c, p, "data-aid"@)
    &&& opt_text(img.data_src) == html::html_attr(c, p, "data-src"@)
    &&& opt_text(img.src) == html::html_attr(c, p, "src"@)
    &&& opt_text(img.alt) == html::html_attr(c, p, "alt"@)
}

/// `hrefs` holds the `href` of each link (`a[href]`) below the element at
/// `p`, in order, empty where it has none.
pub open spec fn hrefs_read(c: Seq<char>, p: Seq<StepModel>, hrefs: Seq<String>) -> bool {
    match html::html_below_count(c, p, "a[href]"@) {
        Some(n) => hrefs.len() == n && forall|k: int| 0 <= k < n ==> (#[trigger] hrefs[k])@
            == match html::html_attr(c, p.push(StepModel::Below("a[href]"@, k as nat)), "href"@) {
                Some(h) => h,
                None => Seq::<char>::empty(),
            },
        None => hrefs.len() == 0,
    }
}

/// `b` is the block that the element at `p` is: a `figure` with its first
/// `img`, an `img` and whether a `figure` encloses it, or any other element
/// with its tag name, its text and its links.
pub open spec fn block_read(c: Seq<char>, p: Seq<StepModel>, b: HtmlBlock) -> bool {
    let name = html::html_name(c, p);
    if name == "figure"@ {
        match html::html_below_count(c, p, "img"@) {
            Some(n) => if n > 0 {
                b matches HtmlBlock::Figure(Some(img)) && image_read(c, p.push(StepModel::Below("img"@, 0)), img)
            } else {
                b matches HtmlBlock::Figure(None)
            },
            None => b matches HtmlBlock::Figure(None),
        }
    } else if name == "img"@ {
        b matches HtmlBlock::Image { image, in_figure } && image_read(c, p, image)
            && in_figure == html::html_ancestors(c, p).contains("figure"@)
    } else {
        b matches HtmlBlock::Text { name: n, text: t, hrefs } && n@ == name && t@ == html::html_text(c, p)
            && hrefs_read(c, p, hrefs@)
    }
}

/// `blocks` are the block elements of the fragment `c`, in document order.
pub open spec fn blocks_read(c: Seq<char>, blocks: Seq<HtmlBlock>) -> bool {
    match html::html_select_count(c, block_selector()) {
        Some(n) => blocks.len() == n && forall|i: int| 0 <= i < n
            ==> block_read(c, seq![StepModel::Select(block_selector(), i as nat)], #[trigger] blocks[i]),
        None => blocks.len() == 0,
    }
}

/// The whole text of the fragment `c`.
pub open spec fn root_text_of(c: Seq<char>) -> Seq<char> {
    html::html_text(c, seq![StepModel::Root])
}

/// The attributes of an `img` element.
fn html_image(element: &HtmlElement<'_>) -> (res: HtmlImage)
    ensures
        image_read(element@.0, element@.1, res),
{
    HtmlImage {
        class: html::element_attr(element, "class"),
        aid: html::element_attr(element, "aid"),
        data_aid: html::element_attr(element, "data-aid"),
        data_src: html::element_attr(element, "data-src"),
        src: html::element_attr(element, "src"),
        alt: html::element_attr(element, "alt"),
    }
}

/// Whether one of `names` is `figure`.
fn has_figure(names: &Vec<String>) -> (res: bool)
    ensures
        res == text::string_views(names@).contains("figure"@),
{
    let mut i: usize = 0;
    while i < names.len()
        invariant
            i <= names.len(),
            forall|j: int| 0 <= j < i ==> (#[trigger] names@[j])@ != "figure"@,
        decreases names.len() - i,
    {
        if text::str_eq(names[i].as_str(), "figure") {
            assert(text::string_views(names@)[i as int] == "figure"@);
            return true;
        }
        i = i + 1;
    }
    assert forall|j: int| 0 <= j < text::string_views(names@).len() implies text::string_views(names@)[j] != "figure"@ by {
        assert(text::string_views(names@)[j] == names@[j]@);
    }
    false
}

/// The `href` of each link below `element`.
fn link_hrefs(element: &HtmlElement<'_>) -> (res: Vec<String>)
    ensures
        hrefs_read(element@.0, element@.1, res@),
{
    let mut hrefs: Vec<String> = Vec::new();
    let anchors = match html::select_below(element, "a[href]") {
        Some(a) => a,
        None => return hrefs,
    };
    let mut i: usize = 0;
    while i < anchors.len()
        invariant
            i <= anchors@.len(),
            hrefs@.len() == i,
            forall|j: int| 0 <= j < anchors@.len()
                ==> (#[trigger] anchors@[j])@ == (element@.0, element@.1.push(StepModel::Below("a[href]"@, j as nat))),
            forall|k: int| 0 <= k < i ==> (#[trigger] hrefs@[k])@
                == match html::html_attr(element@.0, element@.1.push(StepModel::Below("a[href]"@, k as nat)), "href"@) {
                    Some(h) => h,
                    None => Seq::<char>::empty(),
                },
        decreases anchors.len() - i,
    {
        assert(anchors@[i as int]@ == (element@.0, element@.1.push(StepModel::Below("a[href]"@, i as nat))));
        match html::element_attr(&anchors[i], "href") {
            Some(href) => hrefs.push(href),
            None => hrefs.push(String::new()),
        }
        i = i + 1;
    }
    hrefs
}

/// The block element that `element` is, as the logic reads it.
fn html_block(element: &HtmlElement<'_>) -> (res: HtmlBlock)
    ensures
        block_read(element@.0, element@.1, res),
{
    let name = html::element_name(element);
    if text::str_eq(name.as_str(), "figure") {
        match html::select_below(element, "img") {
            Some(inner) => if inner.len() > 0 {
                HtmlBlock::Figure(Some(html_image(&inner[0])))
            } else {
                HtmlBlock::Figure(None)
            },
            None => HtmlBlock::Figure(None),
        }
    } else if text::str_eq(name.as_str(), "img") {
        let in_figure = has_figure(&html::enclosing_names(element));
        HtmlBlock::Image { image: html_image(element), in_figure }
    } else {
        let text = html::element_text(element);
        let hrefs = link_hrefs(element);
        HtmlBlock::Text { name, text, hrefs }
    }
}

/// The block elements of an HTML fragment, in document order, and its
/// whole text.
fn html_blocks(content: &str) -> (res: (Vec<HtmlBlock>, String))
    ensures
        blocks_read(content@, res.0@),
        res.1@ == root_text_of(content@),
{
    let parsed = html::parse_fragment(content);
    let root_text = html::element_text(&html::root_element(&parsed));
    let mut out: Vec<HtmlBlock> = Vec::new();
    let elements = match html::select_in(&parsed, "h1,h2,h3,h4,p,blockquote,li,pre,figure,img") {
        Some(e) => e,
        None => return (out, root_text),
    };
    let mut i: usize = 0;
    while i < elements.len()
        invariant
            i <= elements@.len(),
            out@.len() == i,
            parsed@ == content@,
            forall|j: int| 0 <= j < elements@.len()
                ==> (#[trigger] elements@[j])@ == (content@, seq![StepModel::Select(block_selector(), j as nat)]),
            forall|k: int| 0 <= k < i
                ==> block_read(content@, seq![StepModel::Select(block_selector(), k as nat)], #[trigger] out@[k]),
        decreases elements.len() - i,
    {
        assert(elements@[i as int]@ == (content@, seq![StepModel::Select(block_selector(), i as nat)]));
        out.push(html_block(&elements[i]));
        i = i + 1;
    }
    (out, root_text)
}

/// The block elements that `scraper` reads from the fragment `c`.
pub open spec fn html_blocks_of(c: Seq<char>) -> Seq<HtmlBlock> {
    choose|e: Seq<HtmlBlock>| blocks_read(c, e)
}

proof fn lemma_image_step_same(d: Draft, c: Seq<char>, p: Seq<StepModel>, a: HtmlImage, b: HtmlImage)
    requires
        image_read(c, p, a),
        image_read(c, p, b),
    ensures
        image_step(d, a) == image_step(d, b),
{
    assert(or_empty(a.class) == or_empty(b.class));
    assert(or_empty(a.data_aid) == or_empty(b.data_aid));
    assert(or_empty(a.src) == or_empty(b.src));
    assert(embedded_placeholder(a) == embedded_placeholder(b));
    assert(image_url(a) == image_url(b));
}

proof fn lemma_block_step_same(d: Draft, c: Seq<char>, p: Seq<StepModel>, a: HtmlBlock, b: HtmlBlock)
    requires
        block_read(c, p, a),
        block_read(c, p, b),
    ensures
        html_step(d, a) == html_step(d, b),
{
    let name = html::html_name(c, p);
    if name == "figure"@ {
        if let HtmlBlock::Figure(Some(x)) = a {
            lemma_image_step_same(d, c, p.push(StepModel::Below("img"@, 0)), x, b->Figure_0.unwrap());
        }
    } else if name == "img"@ {
        lemma_image_step_same(d, c, p, a->image, b->image);
    } else {
        let (ha, hb) = (a->hrefs@, b->hrefs@);
        assert(text::string_views(ha) =~= text::string_views(hb)) by {
            assert forall|k: int| 0 <= k < ha.len() implies text::string_views(ha)[k] == text::string_views(hb)[k] by {
                assert(ha[k]@ == hb[k]@);
            }
        }
    }
}

proof fn lemma_html_draft_same(c: Seq<char>, a: Seq<HtmlBlock>, b: Seq<HtmlBlock>, k: int)
    requires
        blocks_read(c, a),
        blocks_read(c, b),
        k <= a.len(),
    ensures
        html_draft(a, k) == html_draft(b, k),
    decreases k,
{
    if k > 0 {
        lemma_html_draft_same(c, a, b, k - 1);
        let p = seq![StepModel::Select(block_selector(), (k - 1) as nat)];
        assert(block_read(c, p, a[k - 1]));
        assert(block_read(c, p, b[k - 1]));
        lemma_block_step_same(html_draft(a, k - 1), c, p, a[k - 1], b[k - 1]);
    }
}

/// The document of an HTML fragment depends on what is read of the
/// fragment alone: two readings of its block elements give the same
/// document.
pub proof fn lemma_html_document_same(c: Seq<char>, a: Seq<HtmlBlock>, b: Seq<HtmlBlock>)
    requires
        blocks_read(c, a),
        blocks_read(c, b),
    ensures
        html_document(a, root_text_of(c)) == html_document(b, root_text_of(c)),
{
    lemma_html_draft_same(c, a, b, a.len() as int);
}

/// The document of HTML content.
pub fn document_from_html(content: &str) -> (res: ArticleDocument)
    ensures
        res@ == html_document(html_blocks_of(content@), root_text_of(content@)),
{
    let (elements, root_text) = html_blocks(content);
    let res = document_from_html_blocks(&elements, root_text.as_str());
    proof {
        assert(blocks_read(content@, elements@));
        lemma_html_document_same(content@, elements@, html_blocks_of(content@));
    }
    res
}

// ---------------------------------------------------------------------------
// The article's document
// ---------------------------------------------------------------------------

/// Content is read as JSON for articles of type 3 and where it starts,
/// after whitespace, with `{`; otherwise as HTML.
pub open spec fn uses_json(a: ArticleData) -> bool {
    a.article_type == 3 || text::seq_starts_with(text::trim_start(a.content@), "{"@)
}

/// An image URL of the article's own list: added, with an image block,
/// unless its normalized form is empty or already there.
pub open spec fn extra_image_step(d: Draft, url: Seq<char>) -> Draft {
    let n = text::normalized_url_spec(url);
    if n.len() > 0 && !d.urls.contains(n) {
        Draft {
            blocks: d.blocks.push(BlockModel::Image { url: n, alt: "文章图片"@ }),
            urls: d.urls.push(n),
        }
    } else {
        d
    }
}

/// The first `k` of `urls` added in turn.
pub open spec fn extra_images(d: Draft, urls: Seq<Seq<char>>, k: int) -> Draft
    decreases k,
{
    if k <= 0 {
        d
    } else {
        extra_image_step(extra_images(d, urls, k - 1), urls[k - 1])
    }
}

/// The article's document from the document of its content: the image URLs
/// of the article (`image_urls`, then `origin_image_urls`) added, the
/// summary as the only block when there is no other, and the body rendered
/// again.
pub open spec fn finished(a: ArticleData, base: DocumentModel) -> DocumentModel {
    let extra = text::string_views(a.image_urls@) + text::string_views(a.origin_image_urls@);
    let d = extra_images(Draft { blocks: base.blocks, urls: base.image_urls }, extra, extra.len() as int);
    if d.blocks.len() == 0 && text::trim(a.summary@).len() > 0 {
        document_of(with_block(d, BlockModel::Text(a.summary@)))
    } else {
        document_of(d)
    }
}

/// Adds one image URL of the article's own list.
fn push_extra_image(blocks: &mut Vec<ArticleBlock>, urls: &mut Vec<String>, url: &str)
    ensures
        draft_of(final(blocks)@, final(urls)@) == extra_image_step(draft_of(old(blocks)@, old(urls)@), url@),
{
    let n = text::normalized_url(url);
    if !n.as_str().is_empty() && !contains_string(urls, n.as_str()) {
        urls.push(n.clone());
        assert(text::string_views(urls@) =~= text::string_views(old(urls)@).push(n@));
        push_image(blocks, n, text::to_owned_string("文章图片"));
    }
}

impl ArticleData {
    /// The article's document from the document of its content.
    pub fn finish_document(&self, base: ArticleDocument) -> (res: ArticleDocument)
        ensures
            res@ == finished(*self, base@),
    {
        let ghost extra = text::string_views(self.image_urls@) + text::string_views(self.origin_image_urls@);
        let ghost d0 = Draft { blocks: base@.blocks, urls: base@.image_urls };
        let ArticleDocument { body: _, image_urls: mut urls, blocks: mut blocks } = base;
        let n1 = self.image_urls.len();
        let mut i: usize = 0;
        while i < n1
            invariant
                i <= n1,
                n1 == self.image_urls.len(),
                extra == text::string_views(self.image_urls@) + text::string_views(self.origin_image_urls@),
                draft_of(blocks@, urls@) == extra_images(d0, extra, i as int),
            decreases n1 - i,
        {
            assert(extra[i as int] == self.image_urls@[i as int]@);
            push_extra_image(&mut blocks, &mut urls, self.image_urls[i].as_str());
            i = i + 1;
        }
        let mut j: usize = 0;
        while j < self.origin_image_urls.len()
            invariant
                j <= self.origin_image_urls.len(),
                n1 == self.image_urls.len(),
                extra == text::string_views(self.image_urls@) + text::string_views(self.origin_image_urls@),
                draft_of(blocks@, urls@) == extra_images(d0, extra, n1 + j),
            decreases self.origin_image_urls.len() - j,
        {
            assert(extra[n1 + j] == self.origin_image_urls@[j as int]@);
            push_extra_image(&mut blocks, &mut urls, self.origin_image_urls[j].as_str());
            j = j + 1;
        }
        assert(extra.len() == n1 + self.origin_image_urls.len());
        if blocks.len() == 0 {
            let chars = text::chars_of(self.summary.as_str());
            if text::trimmed(&chars).len() > 0 {
                blocks.push(ArticleBlock::Text(self.summary.clone()));
                assert(block_models(blocks@) =~= seq![BlockModel::Text(self.summary@)]);
                assert(extra_images(d0, extra, extra.len() as int).blocks =~= Seq::<BlockModel>::empty());
            }
        }
        let body = document_body(&blocks);
        ArticleDocument { body, image_urls: urls, blocks }
    }

    /// Whether the content is read as JSON.
    fn content_is_json(&self) -> (res: bool)
        ensures
            res == uses_json(*self),
    {
        if self.article_type == 3 {
            return true;
        }
        let chars = text::chars_of(self.content.as_str());
        let start = text::trimmed_start(&chars);
        proof {
            reveal_strlit("{");
            assert("{"@ =~= seq!['{']);
            if start@.len() > 0 {
                assert(start@.take(1) =~= seq![start@[0]]);
            }
        }
        let res = start.len() > 0 && start[0] == '{';
        proof {
            if res {
                assert(start@.take(1) =~= "{"@);
            }
            if text::seq_starts_with(start@, "{"@) {
                assert(start@.take(1)[0] == start@[0]);
            }
        }
        res
    }

    /// The text of the article as blocks and a body: the content read as
    /// JSON or HTML, then the article's own image URLs and its summary.
    pub fn document(&self) -> (res: ArticleDocument)
        ensures
            res@ == finished(*self, if uses_json(*self) {
                json_document(self.content@, json::json_of_text(self.content@))
            } else {
                html_document(html_blocks_of(self.content@), root_text_of(self.content@))
            }),
    {
        let base = if self.content_is_json() {
            document_from_json(self.content.as_str())
        } else {
            document_from_html(self.content.as_str())
        };
        self.finish_document(base)
    }
}

// ---------------------------------------------------------------------------
// Laws
// ---------------------------------------------------------------------------

/// No URL occurs twice, and none is empty.
pub open spec fn urls_distinct(urls: Seq<Seq<char>>) -> bool {
    &&& forall|i: int, j: int| 0 <= i < j < urls.len() ==> urls[i] != urls[j]
    &&& forall|i: int| 0 <= i < urls.len() ==> (#[trigger] urls[i]).len() > 0
}

proof fn lemma_unique_url_keeps(urls: Seq<Seq<char>>, url: Seq<char>)
    requires
        urls_distinct(urls),
    ensures
        urls_distinct(with_unique_url(urls, url)),
{
    let n = text::normalized_url_spec(url);
    if n.len() > 0 && !urls.contains(n) {
        let u = urls.push(n);
        assert forall|i: int, j: int| 0 <= i < j < u.len() implies u[i] != u[j] by {
            if j == urls.len() {
                assert(u[i] == urls[i]);
                assert(urls.contains(urls[i]));
            }
        }
        assert forall|i: int| 0 <= i < u.len() implies (#[trigger] u[i]).len() > 0 by {
            if i < urls.len() {
                assert(u[i] == urls[i]);
            }
        }
    }
}

proof fn lemma_image_step_keeps(d: Draft, img: HtmlImage)
    requires
        urls_distinct(d.urls),
    ensures
        urls_distinct(image_step(d, img).urls),
{
    match image_url(img) {
        Some(url) => lemma_unique_url_keeps(d.urls, url),
        None => {},
    }
}

proof fn lemma_html_draft_distinct(blocks: Seq<HtmlBlock>, k: int)
    ensures
        urls_distinct(html_draft(blocks, k).urls),
    decreases k,
{
    if k > 0 {
        lemma_html_draft_distinct(blocks, k - 1);
        let d = html_draft(blocks, k - 1);
        match blocks[k - 1] {
            HtmlBlock::Figure(image) => match image {
                Some(img) => lemma_image_step_keeps(d, img),
                None => {},
            },
            HtmlBlock::Image { image, in_figure } => if !in_figure {
                lemma_image_step_keeps(d, image);
            },
            HtmlBlock::Text { .. } => {},
        }
    }
}

proof fn lemma_json_draft_distinct(ops: Seq<JsonValue>, k: int)
    ensures
        urls_distinct(json_draft(ops, k).urls),
    decreases k,
{
    if k > 0 {
        lemma_json_draft_distinct(ops, k - 1);
        let d = json_draft(ops, k - 1);
        match json::member(ops[k - 1], "insert"@) {
            Some(insert) => match json::member(insert, "native-image"@) {
                Some(image) => match str_member(image, "url"@) {
                    Some(url) => lemma_unique_url_keeps(d.urls, url),
                    None => {},
                },
                None => {},
            },
            None => {},
        }
    }
}

proof fn lemma_extra_images_distinct(d: Draft, urls: Seq<Seq<char>>, k: int)
    requires
        urls_distinct(d.urls),
    ensures
        urls_distinct(extra_images(d, urls, k).urls),
    decreases k,
{
    if k > 0 {
        lemma_extra_images_distinct(d, urls, k - 1);
        let prev = extra_images(d, urls, k - 1);
        lemma_unique_url_keeps(prev.urls, urls[k - 1]);
    }
}

/// The image URLs of an article's document are listed once each and none
/// is empty, whatever its content holds and however that reads; and its
/// body is what its blocks render to.
pub proof fn lemma_document_urls_distinct(a: ArticleData, parsed: Option<JsonValue>, elements: Seq<HtmlBlock>,
    root_text: Seq<char>)
    ensures
        urls_distinct(finished(a, json_document(a.content@, parsed)).image_urls),
        urls_distinct(finished(a, html_document(elements, root_text)).image_urls),
        finished(a, json_document(a.content@, parsed)).body
            == body_of(finished(a, json_document(a.content@, parsed)).blocks),
        finished(a, html_document(elements, root_text)).body
            == body_of(finished(a, html_document(elements, root_text)).blocks),
{
    let extra = text::string_views(a.image_urls@) + text::string_views(a.origin_image_urls@);
    match parsed {
        Some(v) => lemma_json_draft_distinct(json_ops(v), json_ops(v).len() as int),
        None => {},
    }
    let j = json_document(a.content@, parsed);
    lemma_extra_images_distinct(Draft { blocks: j.blocks, urls: j.image_urls }, extra, extra.len() as int);
    lemma_html_draft_distinct(elements, elements.len() as int);
    let h = html_document(elements, root_text);
    lemma_extra_images_distinct(Draft { blocks: h.blocks, urls: h.image_urls }, extra, extra.len() as int);
}

/// `blocks` hold an image block of `url`.
pub open spec fn has_image_block(blocks: Seq<BlockModel>, url: Seq<char>) -> bool {
    exists|j: int| 0 <= j < blocks.len() && (#[trigger] blocks[j] matches BlockModel::Image { url: u, .. } && u == url)
}

/// Each image URL of a draft has an image block.
pub open spec fn urls_have_blocks(d: Draft) -> bool {
    forall|i: int| 0 <= i < d.urls.len() ==> has_image_block(d.blocks, #[trigger] d.urls[i])
}

proof fn lemma_block_push(bs: Seq<BlockModel>, x: BlockModel, url: Seq<char>)
    requires
        has_image_block(bs, url),
    ensures
        has_image_block(bs.push(x), url),
{
    let j = choose|j: int| 0 <= j < bs.len() && (#[trigger] bs[j] matches BlockModel::Image { url: u, .. } && u == url);
    assert(bs.push(x)[j] == bs[j]);
}

proof fn lemma_push_keeps(d: Draft, x: BlockModel)
    requires
        urls_have_blocks(d),
    ensures
        urls_have_blocks(Draft { blocks: d.blocks.push(x), urls: d.urls }),
{
    assert forall|i: int| 0 <= i < d.urls.len() implies has_image_block(d.blocks.push(x), #[trigger] d.urls[i]) by {
        lemma_block_push(d.blocks, x, d.urls[i]);
    }
}

proof fn lemma_with_text_keeps(d: Draft, t: Seq<char>)
    requires
        urls_have_blocks(d),
    ensures
        urls_have_blocks(Draft { blocks: with_text(d.blocks, t), urls: d.urls }),
{
    let bs = d.blocks;
    if bs.len() > 0 && bs.last() is Text {
        let nb = with_text(bs, t);
        assert forall|i: int| 0 <= i < d.urls.len() implies has_image_block(nb, #[trigger] d.urls[i]) by {
            let url = d.urls[i];
            assert(has_image_block(bs, url));
            let j = choose|j: int| 0 <= j < bs.len() && (#[trigger] bs[j] matches BlockModel::Image { url: u, .. } && u == url);
            assert(j != bs.len() - 1);
            assert(nb[j] == bs[j]);
        }
    } else {
        lemma_push_keeps(d, BlockModel::Text(t));
    }
}

proof fn lemma_image_push_keeps(d: Draft, url: Seq<char>, alt: Seq<char>)
    requires
        urls_have_blocks(d),
    ensures
        urls_have_blocks(Draft {
            blocks: d.blocks.push(BlockModel::Image { url: text::normalized_url_spec(url), alt }),
            urls: with_unique_url(d.urls, url),
        }),
{
    let n = text::normalized_url_spec(url);
    let nb = d.blocks.push(BlockModel::Image { url: n, alt });
    lemma_push_keeps(d, BlockModel::Image { url: n, alt });
    let nu = with_unique_url(d.urls, url);
    assert(has_image_block(nb, n)) by {
        assert(nb[d.blocks.len() as int] == BlockModel::Image { url: n, alt });
    }
    if n.len() > 0 && !d.urls.contains(n) {
        assert(nu == d.urls.push(n));
        assert forall|i: int| 0 <= i < nu.len() implies has_image_block(nb, #[trigger] nu[i]) by {
            if i < d.urls.len() {
                assert(nu[i] == d.urls[i]);
                lemma_block_push(d.blocks, BlockModel::Image { url: n, alt }, d.urls[i]);
            } else {
                assert(nu[i] == n);
            }
        }
    } else {
        assert(nu == d.urls);
        assert forall|i: int| 0 <= i < nu.len() implies has_image_block(nb, #[trigger] nu[i]) by {
            lemma_block_push(d.blocks, BlockModel::Image { url: n, alt }, d.urls[i]);
        }
    }
}

proof fn lemma_image_step_blocks(d: Draft, img: HtmlImage)
    requires
        urls_have_blocks(d),
    ensures
        urls_have_blocks(image_step(d, img)),
{
    match embedded_placeholder(img) {
        Some(p) => lemma_push_keeps(d, BlockModel::Embedded(p)),
        None => match image_url(img) {
            Some(url) => lemma_image_push_keeps(d, url, match img.alt { Some(a) => a@, None => "文章图片"@ }),
            None => {},
        },
    }
}

proof fn lemma_html_draft_blocks(blocks: Seq<HtmlBlock>, k: int)
    ensures
        urls_have_blocks(html_draft(blocks, k)),
    decreases k,
{
    if k > 0 {
        lemma_html_draft_blocks(blocks, k - 1);
        let d = html_draft(blocks, k - 1);
        match blocks[k - 1] {
            HtmlBlock::Figure(image) => match image {
                Some(img) => lemma_image_step_blocks(d, img),
                None => {},
            },
            HtmlBlock::Image { image, in_figure } => if !in_figure {
                lemma_image_step_blocks(d, image);
            },
            HtmlBlock::Text { name, text: t, hrefs } => {
                let tt = text::trim(t@);
                if tt.len() > 0 {
                    lemma_push_keeps(d, BlockModel::Text(with_links(line_of(name@, tt), text::string_views(hrefs@))));
                }
            },
        }
    }
}

proof fn lemma_insert_object_blocks(d: Draft, insert: JsonValue)
    requires
        urls_have_blocks(d),
    ensures
        urls_have_blocks(insert_object_step(d, insert)),
{
    match json::member(insert, "native-image"@) {
        Some(image) => match str_member(image, "url"@) {
            Some(url) => lemma_image_push_keeps(d, url, match str_member(image, "alt"@) {
                Some(a) => a,
                None => "文章图片"@,
            }),
            None => {},
        },
        None => {
            let e = insert_object_step(d, insert);
            if e != d {
                assert(e.urls == d.urls && e.blocks == d.blocks.push(e.blocks.last()));
                lemma_push_keeps(d, e.blocks.last());
            }
        },
    }
}

proof fn lemma_json_draft_blocks(ops: Seq<JsonValue>, k: int)
    ensures
        urls_have_blocks(json_draft(ops, k)),
    decreases k,
{
    if k > 0 {
        lemma_json_draft_blocks(ops, k - 1);
        let d = json_draft(ops, k - 1);
        match json::member(ops[k - 1], "insert"@) {
            None => {},
            Some(insert) => match json::as_str(insert) {
                Some(t) => lemma_with_text_keeps(d, t),
                None => if insert is Object {
                    lemma_insert_object_blocks(d, insert);
                },
            },
        }
    }
}

proof fn lemma_extra_images_blocks(d: Draft, urls: Seq<Seq<char>>, k: int)
    requires
        urls_have_blocks(d),
    ensures
        urls_have_blocks(extra_images(d, urls, k)),
        forall|i: int| 0 <= i < k && i < urls.len() && text::normalized_url_spec(#[trigger] urls[i]).len() > 0
            ==> extra_images(d, urls, k).urls.contains(text::normalized_url_spec(urls[i])),
    decreases k,
{
    if k > 0 {
        lemma_extra_images_blocks(d, urls, k - 1);
        let prev = extra_images(d, urls, k - 1);
        let n = text::normalized_url_spec(urls[k - 1]);
        let next = extra_images(d, urls, k);
        if n.len() > 0 && !prev.urls.contains(n) {
            assert(with_unique_url(prev.urls, urls[k - 1]) == prev.urls.push(n));
            lemma_image_push_keeps(prev, urls[k - 1], "文章图片"@);
            assert(next.urls[prev.urls.len() as int] == n);
        }
        assert forall|i: int| 0 <= i < k && i < urls.len() && text::normalized_url_spec(#[trigger] urls[i]).len() > 0
            implies next.urls.contains(text::normalized_url_spec(urls[i])) by {
            let m = text::normalized_url_spec(urls[i]);
            if i < k - 1 {
                assert(prev.urls.contains(m));
                let j = choose|j: int| 0 <= j < prev.urls.len() && prev.urls[j] == m;
                if n.len() > 0 && !prev.urls.contains(n) {
                    assert(next.urls[j] == m);
                }
            } else if n.len() > 0 && !prev.urls.contains(n) {
                assert(next.urls[prev.urls.len() as int] == n);
            }
        }
    }
}

/// Every image URL of the article's own lists (`image_urls`, then
/// `origin_image_urls`) whose normalized form is not empty is among the
/// image URLs of its document, whatever its content holds and however that
/// reads; and the document holds an image block for each of its image URLs.
pub proof fn lemma_document_images(a: ArticleData, parsed: Option<JsonValue>, elements: Seq<HtmlBlock>,
    root_text: Seq<char>)
    ensures
        ({
            let extra = text::string_views(a.image_urls@) + text::string_views(a.origin_image_urls@);
            let j = finished(a, json_document(a.content@, parsed));
            let h = finished(a, html_document(elements, root_text));
            &&& forall|i: int| 0 <= i < extra.len() && text::normalized_url_spec(#[trigger] extra[i]).len() > 0
                ==> j.image_urls.contains(text::normalized_url_spec(extra[i]))
                    && h.image_urls.contains(text::normalized_url_spec(extra[i]))
                    && has_image_block(j.blocks, text::normalized_url_spec(extra[i]))
                    && has_image_block(h.blocks, text::normalized_url_spec(extra[i]))
            &&& forall|i: int| 0 <= i < j.image_urls.len() ==> has_image_block(j.blocks, #[trigger] j.image_urls[i])
            &&& forall|i: int| 0 <= i < h.image_urls.len() ==> has_image_block(h.blocks, #[trigger] h.image_urls[i])
        }),
{
    let extra = text::string_views(a.image_urls@) + text::string_views(a.origin_image_urls@);
    let jd = json_document(a.content@, parsed);
    match parsed {
        Some(v) => lemma_json_draft_blocks(json_ops(v), json_ops(v).len() as int),
        None => {},
    }
    let dj = Draft { blocks: jd.blocks, urls: jd.image_urls };
    assert(urls_have_blocks(dj));
    lemma_extra_images_blocks(dj, extra, extra.len() as int);
    let hd = html_document(elements, root_text);
    lemma_html_draft_blocks(elements, elements.len() as int);
    let hdr = html_draft(elements, elements.len() as int);
    let t = text::trim(root_text);
    if hdr.blocks.len() == 0 && t.len() > 0 {
        lemma_push_keeps(hdr, BlockModel::Text(t));
    }
    let dh = Draft { blocks: hd.blocks, urls: hd.image_urls };
    assert(urls_have_blocks(dh));
    lemma_extra_images_blocks(dh, extra, extra.len() as int);
    let ej = extra_images(dj, extra, extra.len() as int);
    let eh = extra_images(dh, extra, extra.len() as int);
    if ej.blocks.len() == 0 && text::trim(a.summary@).len() > 0 {
        lemma_push_keeps(ej, BlockModel::Text(a.summary@));
    }
    if eh.blocks.len() == 0 && text::trim(a.summary@).len() > 0 {
        lemma_push_keeps(eh, BlockModel::Text(a.summary@));
    }
    let j = finished(a, jd);
    let h = finished(a, hd);
    assert forall|i: int| 0 <= i < extra.len() && text::normalized_url_spec(#[trigger] extra[i]).len() > 0
        implies has_image_block(j.blocks, text::normalized_url_spec(extra[i]))
            && has_image_block(h.blocks, text::normalized_url_spec(extra[i])) by {
        let n = text::normalized_url_spec(extra[i]);
        assert(j.image_urls.contains(n));
        assert(h.image_urls.contains(n));
        let kj = choose|k: int| 0 <= k < j.image_urls.len() && j.image_urls[k] == n;
        let kh = choose|k: int| 0 <= k < h.image_urls.len() && h.image_urls[k] == n;
        assert(has_image_block(j.blocks, j.image_urls[kj]));
        assert(has_image_block(h.blocks, h.image_urls[kh]));
    }
}

} // verus!
