//! HTML fragments read with `scraper`. A parsed fragment keeps its text,
//! and each element it hands out keeps the way it was reached from that
//! text: the root element, or the `i`-th match of a selector in the whole
//! fragment, then the `j`-th match of a selector below that element, and
//! so on. What `scraper` reads of an element is named over that text and
//! that way, so that it depends on plain values alone.

use vstd::prelude::*;
use crate::text;

verus! {

broadcast use vstd::string::group_string_axioms;

#[verifier::external_type_specification]
#[verifier::external_body]
pub struct ExHtml(scraper::Html);

#[verifier::external_type_specification]
#[verifier::external_body]
pub struct ExElementRef<'a>(scraper::ElementRef<'a>);

/// A step from a fragment to one of its elements.
#[derive(Debug, Clone)]
pub enum HtmlStep {
    /// The root element (`scraper::Html::root_element`).
    Root,
    /// Match number `index` of `selector` in the whole fragment
    /// (`scraper::Html::select`).
    Select(String, usize),
    /// Match number `index` of `selector` below the element reached so far
    /// (`scraper::ElementRef::select`).
    Below(String, usize),
}

/// A step as plain values.
pub enum StepModel {
    Root,
    Select(Seq<char>, nat),
    Below(Seq<char>, nat),
}

impl View for HtmlStep {
    type V = StepModel;

    open spec fn view(&self) -> StepModel {
        match self {
            HtmlStep::Root => StepModel::Root,
            HtmlStep::Select(s, i) => StepModel::Select(s@, *i as nat),
            HtmlStep::Below(s, i) => StepModel::Below(s@, *i as nat),
        }
    }
}

/// A fragment parsed by `scraper::Html::parse_fragment`, with its text.
/// Only `parse_fragment` below makes one.
pub struct ParsedHtml {
    content: String,
    html: scraper::Html,
}

impl View for ParsedHtml {
    type V = Seq<char>;

    closed spec fn view(&self) -> Seq<char> {
        self.content@
    }
}

/// An element of a parsed fragment, with the text of the fragment and the
/// steps that reached it. Only the functions below that return elements
/// make one, and they record the steps they take.
pub struct HtmlElement<'a> {
    element: scraper::ElementRef<'a>,
    content: &'a str,
    path: Vec<HtmlStep>,
}

impl<'a> View for HtmlElement<'a> {
    type V = (Seq<char>, Seq<StepModel>);

    closed spec fn view(&self) -> (Seq<char>, Seq<StepModel>) {
        (self.content@, self.path@.map_values(|s: HtmlStep| s@))
    }
}

/// How many elements of the fragment `content` match `selector`, in
/// document order, as `scraper::Html::select` finds them; `None` where
/// `scraper::Selector::parse` refuses the selector.
pub uninterp spec fn html_select_count(content: Seq<char>, selector: Seq<char>) -> Option<nat>;

/// How many elements below the element at `path` match `selector`, as
/// `scraper::ElementRef::select` finds them; `None` where the selector does
/// not parse.
pub uninterp spec fn html_below_count(content: Seq<char>, path: Seq<StepModel>, selector: Seq<char>) -> Option<nat>;

/// The tag name of the element at `path` (`scraper::node::Element::name`).
pub uninterp spec fn html_name(content: Seq<char>, path: Seq<StepModel>) -> Seq<char>;

/// The value of attribute `name` of the element at `path`
/// (`scraper::ElementRef::attr`).
pub uninterp spec fn html_attr(content: Seq<char>, path: Seq<StepModel>, name: Seq<char>) -> Option<Seq<char>>;

/// The text nodes below the element at `path`, joined
/// (`scraper::ElementRef::text`).
pub uninterp spec fn html_text(content: Seq<char>, path: Seq<StepModel>) -> Seq<char>;

/// The tag names of the elements that enclose the element at `path`,
/// innermost first (`ego_tree::NodeRef::ancestors`, kept where
/// `scraper::ElementRef::wrap` finds an element).
pub uninterp spec fn html_ancestors(content: Seq<char>, path: Seq<StepModel>) -> Seq<Seq<char>>;

/// `scraper::Html::parse_fragment`, kept with the text it parsed.
#[verifier::external_body]
pub(crate) fn parse_fragment(content: &str) -> (res: ParsedHtml)
    ensures
        res@ == content@,
{
    ParsedHtml { content: content.to_string(), html: scraper::Html::parse_fragment(content) }
}

/// `scraper::Html::root_element`: the element at the root of the fragment.
#[verifier::external_body]
pub(crate) fn root_element<'a>(parsed: &'a ParsedHtml) -> (res: HtmlElement<'a>)
    ensures
        res@ == (parsed@, seq![StepModel::Root]),
{
    HtmlElement { element: parsed.html.root_element(), content: parsed.content.as_str(), path: vec![HtmlStep::Root] }
}

/// `scraper::Selector::parse`, then `scraper::Html::select`: the elements
/// of the fragment that match, in document order, each with the step that
/// reached it; `None` where the selector does not parse.
#[verifier::external_body]
pub(crate) fn select_in<'a>(parsed: &'a ParsedHtml, selector: &str) -> (res: Option<Vec<HtmlElement<'a>>>)
    ensures
        match html_select_count(parsed@, selector@) {
            Some(n) => (res matches Some(v) && v@.len() == n && forall|i: int|
                0 <= i < n ==> (#[trigger] v@[i])@ == (parsed@, seq![StepModel::Select(selector@, i as nat)])),
            None => res is None,
        },
{
    let sel = scraper::Selector::parse(selector).ok()?;
    let matches = parsed.html.select(&sel).enumerate();
    Some(matches.map(|(i, e)| HtmlElement {
        element: e,
        content: parsed.content.as_str(),
        path: vec![HtmlStep::Select(selector.to_string(), i)],
    }).collect())
}

/// `scraper::Selector::parse`, then `scraper::ElementRef::select`: the
/// elements below `element` that match, in document order, each with the
/// steps that reached it; `None` where the selector does not parse.
#[verifier::external_body]
pub(crate) fn select_below<'a>(element: &HtmlElement<'a>, selector: &str) -> (res: Option<Vec<HtmlElement<'a>>>)
    ensures
        match html_below_count(element@.0, element@.1, selector@) {
            Some(n) => (res matches Some(v) && v@.len() == n && forall|i: int|
                0 <= i < n ==> (#[trigger] v@[i])@ == (element@.0, element@.1.push(StepModel::Below(selector@, i as nat)))),
            None => res is None,
        },
{
    let sel = scraper::Selector::parse(selector).ok()?;
    let matches = element.element.select(&sel).enumerate();
    Some(matches.map(|(i, e)| HtmlElement {
        element: e,
        content: element.content,
        path: [element.path.clone(), vec![HtmlStep::Below(selector.to_string(), i)]].concat(),
    }).collect())
}

/// `scraper::node::Element::name`: the element's tag name.
#[verifier::external_body]
pub(crate) fn element_name(element: &HtmlElement<'_>) -> (res: String)
    ensures
        res@ == html_name(element@.0, element@.1),
{
    element.element.value().name().to_string()
}

/// `scraper::ElementRef::attr`: the value of an attribute, if present.
#[verifier::external_body]
pub(crate) fn element_attr(element: &HtmlElement<'_>, name: &str) -> (res: Option<String>)
    ensures
        match res {
            Some(v) => html_attr(element@.0, element@.1, name@) == Some(v@),
            None => html_attr(element@.0, element@.1, name@) is None,
        },
{
    element.element.attr(name).map(str::to_string)
}

/// `scraper::ElementRef::text`: the text nodes below the element, joined.
#[verifier::external_body]
pub(crate) fn element_text(element: &HtmlElement<'_>) -> (res: String)
    ensures
        res@ == html_text(element@.0, element@.1),
{
    element.element.text().collect::<Vec<_>>().join("")
}

/// The tag names of the elements that enclose `element`, innermost first
/// (`ego_tree::NodeRef::ancestors`, kept where `scraper::ElementRef::wrap`
/// finds an element).
#[verifier::external_body]
pub(crate) fn enclosing_names(element: &HtmlElement<'_>) -> (res: Vec<String>)
    ensures
        text::string_views(res@) == html_ancestors(element@.0, element@.1),
{
    element.element.ancestors().filter_map(scraper::ElementRef::wrap).map(|e| e.value().name().to_string()).collect()
}

} // verus!
