//! Reading of HTML: the few questions that the extractor asks of a parsed
//! document.
//!
//! Parsing and selecting are the work of the `scraper` crate. What it answers
//! depends on nothing but the text of the document, the text of the selector
//! and the element that is asked about. So a document is known here by its
//! text, a selector by its text, and an element by the document it stands in
//! and the id of its node in the parsed tree; and each answer of the crate has
//! a name, as a function of these. A document is always a piece of HTML,
//! parsed as a fragment.

use vstd::prelude::*;

verus! {

/// A parsed document of the `scraper` crate.
#[verifier::external_type_specification]
#[verifier::external_body]
pub struct ExHtml(scraper::Html);

/// A parsed group of CSS selectors of the `scraper` crate.
#[verifier::external_type_specification]
#[verifier::external_body]
pub struct ExSelector(scraper::Selector);

/// An element of a parsed document of the `scraper` crate.
#[verifier::external_type_specification]
#[verifier::external_body]
pub struct ExElementRef<'a>(scraper::ElementRef<'a>);

/// Whether the `scraper` crate takes the text `css` for a group of CSS
/// selectors.
pub uninterp spec fn is_selector(css: Seq<char>) -> bool;

/// The elements of the document with the text `page` that match the
/// selectors `css`, in the order in which the `scraper` crate hands them
/// out: the id of each.
pub uninterp spec fn selected(page: Seq<char>, css: Seq<char>) -> Seq<Seq<char>>;

/// The element that holds the element `key` of the document with the text
/// `page`, if its parent node is an element: its id.
pub uninterp spec fn parent_of(page: Seq<char>, key: Seq<char>) -> Option<Seq<char>>;

/// The first element below the element `key` of the document with the text
/// `page` that matches the selectors `css`, if there is one: its id. It is
/// the first that the `scraper` crate hands out.
pub uninterp spec fn first_below(page: Seq<char>, key: Seq<char>, css: Seq<char>) -> Option<
    Seq<char>,
>;

/// The markup inside the element `key` of the document with the text `page`.
pub uninterp spec fn inner_markup(page: Seq<char>, key: Seq<char>) -> Seq<char>;

/// The markup of the element `key` of the document with the text `page`.
pub uninterp spec fn outer_markup(page: Seq<char>, key: Seq<char>) -> Seq<char>;

/// The value of the attribute `name` of the element `key` of the document
/// with the text `page`, if the element has that attribute.
pub uninterp spec fn attribute_of(page: Seq<char>, key: Seq<char>, name: Seq<char>) -> Option<
    Seq<char>,
>;

/// A group of CSS selectors as the `scraper` crate has parsed it, together
/// with the text it was parsed from. The text is its view.
///
/// Only [`parse_selector`] makes a value of this type, so the two always
/// belong together; the contracts of this module rest on that.
pub struct CssSelector {
    css: String,
    compiled: scraper::Selector,
}

impl View for CssSelector {
    type V = Seq<char>;

    closed spec fn view(&self) -> Seq<char> {
        self.css@
    }
}

/// A piece of HTML as the `scraper` crate has parsed it, together with the
/// text it was parsed from. The text is its view.
///
/// Only [`parse_fragment`] makes a value of this type, so the two always
/// belong together; the contracts of this module rest on that.
pub struct Document {
    text: String,
    html: scraper::Html,
}

impl View for Document {
    type V = Seq<char>;

    closed spec fn view(&self) -> Seq<char> {
        self.text@
    }
}

/// What tells an element from every other: the text of the document it
/// stands in, and the id of its node in the parsed tree, written out.
pub struct ElementView {
    pub page: Seq<char>,
    pub key: Seq<char>,
}

/// An element of a parsed document, together with its document and the id of
/// its node.
///
/// Only the functions of this module that hand out elements make a value of
/// this type, so the three always belong together; the contracts of this
/// module rest on that.
pub struct Element<'a> {
    document: &'a Document,
    key: String,
    node: scraper::ElementRef<'a>,
}

impl<'a> View for Element<'a> {
    type V = ElementView;

    closed spec fn view(&self) -> ElementView {
        ElementView { page: self.document@, key: self.key@ }
    }
}

/// The element of a page with the given id, if there is an id.
pub open spec fn element_at(page: Seq<char>, key: Option<Seq<char>>) -> Option<ElementView> {
    match key {
        Some(key) => Some(ElementView { page, key }),
        None => None,
    }
}

/// The view of an element that may be missing.
pub open spec fn found_view(found: Option<Element<'_>>) -> Option<ElementView> {
    match found {
        Some(element) => Some(element@),
        None => None,
    }
}

/// The view of a text that may be missing.
pub open spec fn text_view(text: Option<String>) -> Option<Seq<char>> {
    match text {
        Some(text) => Some(text@),
        None => None,
    }
}

/// Parses a group of CSS selectors with `scraper::Selector::parse`; `None`
/// where the crate refuses the text. Whether it does is a matter of the text
/// alone, and has the name [`is_selector`]. What is parsed is kept with a copy
/// of the text.
#[verifier::external_body]
pub(crate) fn parse_selector(css: &str) -> (found: Option<CssSelector>)
    ensures
        found is Some <==> is_selector(css@),
        found matches Some(selector) ==> selector@ == css@,
{
    let parsed = scraper::Selector::parse(css).ok();
    parsed.map(|compiled| CssSelector { css: css.to_owned(), compiled })
}

/// Parses a piece of HTML with `scraper::Html::parse_fragment`, which accepts
/// any text. What is parsed is kept with a copy of the text.
#[verifier::external_body]
pub(crate) fn parse_fragment(text: &str) -> (document: Document)
    ensures
        document@ == text@,
{
    Document { text: text.to_owned(), html: scraper::Html::parse_fragment(text) }
}

/// The elements of a document that match a selector, in the order in which
/// `scraper::Html::select` hands them out, each with the id of its node, as
/// `ego_tree::NodeRef::id` gives it and `Debug` writes it. The contract gives
/// their ids the name [`selected`].
#[verifier::external_body]
pub(crate) fn select_all<'a>(document: &'a Document, selector: &CssSelector) -> (found: Vec<
    Element<'a>,
>)
    ensures
        found@.len() == selected(document@, selector@).len(),
        forall|i: int|
            0 <= i < found@.len() ==> (#[trigger] found@[i])@ == (ElementView {
                page: document@,
                key: selected(document@, selector@)[i],
            }),
{
    let nodes = document.html.select(&selector.compiled);
    nodes.map(|node| Element { document, key: format!("{:?}", node.id()), node }).collect()
}

/// The element that holds `element`, if its parent node is an element: the
/// parent of the node, passed to `scraper::ElementRef::wrap`. The contract
/// gives its id the name [`parent_of`].
#[verifier::external_body]
pub(crate) fn parent_element<'a>(element: &Element<'a>) -> (found: Option<Element<'a>>)
    ensures
        found_view(found) == element_at(element@.page, parent_of(element@.page, element@.key)),
{
    let parent = element.node.parent().and_then(scraper::ElementRef::wrap);
    let document = element.document;
    parent.map(|node| Element { document, key: format!("{:?}", node.id()), node })
}

/// The first element below `element` that matches a selector, as
/// `scraper::ElementRef::select` hands it out. The contract gives its id the
/// name [`first_below`].
#[verifier::external_body]
pub(crate) fn select_first<'a>(element: &Element<'a>, selector: &CssSelector) -> (found: Option<
    Element<'a>,
>)
    ensures
        found_view(found) == element_at(
            element@.page,
            first_below(element@.page, element@.key, selector@),
        ),
{
    let first = element.node.select(&selector.compiled).next();
    let document = element.document;
    first.map(|node| Element { document, key: format!("{:?}", node.id()), node })
}

/// The markup inside an element, by `scraper::ElementRef::inner_html`. The
/// contract gives it the name [`inner_markup`].
#[verifier::external_body]
pub(crate) fn inner_html(element: &Element<'_>) -> (markup: String)
    ensures
        markup@ == inner_markup(element@.page, element@.key),
{
    element.node.inner_html()
}

/// The markup of an element, by `scraper::ElementRef::html`. The contract
/// gives it the name [`outer_markup`].
#[verifier::external_body]
pub(crate) fn outer_html(element: &Element<'_>) -> (markup: String)
    ensures
        markup@ == outer_markup(element@.page, element@.key),
{
    element.node.html()
}

/// The value of an attribute of an element, by `scraper::ElementRef::attr`.
/// The contract gives it the name [`attribute_of`].
#[verifier::external_body]
pub(crate) fn attribute(element: &Element<'_>, name: &str) -> (value: Option<String>)
    ensures
        text_view(value) == attribute_of(element@.page, element@.key, name@),
{
    element.node.attr(name).map(|value| value.to_owned())
}

} // verus!
