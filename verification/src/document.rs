//! Parsed pages and compiled selectors, and what a selector reads off a page.

use crate::text::texts;
use scraper::{Html, Selector};
use vstd::prelude::*;

verus! {

#[verifier::external_type_specification]
#[verifier::external_body]
pub struct ExHtml(scraper::Html);

#[verifier::external_type_specification]
#[verifier::external_body]
pub struct ExSelector(scraper::Selector);

/// A parsed page, together with the text it was parsed from.
///
/// The fields are private and `Document::parse` is the only way to make a
/// value, so the tree is always the one that the parser gave for the source.
pub struct Document {
    source: String,
    tree: Html,
}

impl View for Document {
    type V = Seq<char>;

    /// The markup that the page was parsed from.
    closed spec fn view(&self) -> Seq<char> {
        self.source@
    }
}

impl Document {
    /// Parses the markup of a page. Malformed markup is no error: the
    /// parser makes the best tree it can.
    pub fn parse(body: &str) -> (page: Document)
        ensures
            page@ == body@,
    {
        parse_document(body)
    }

    /// The markup that the page was parsed from.
    pub fn source(&self) -> (text: &str)
        ensures
            text@ == self@,
    {
        self.source.as_str()
    }
}

/// A fetched page: the address it was fetched under, the level of the crawl
/// at which that happened, and the parsed document.
pub struct PageRecord {
    pub url: String,
    pub level: u64,
    pub document: Document,
}

/// The markup of a list of pages, in order.
pub open spec fn sources(pages: Seq<PageRecord>) -> Seq<Seq<char>> {
    pages.map_values(|page: PageRecord| page.document@)
}

/// A compiled selector, together with the text it was compiled from.
///
/// The fields are private and `CompiledSelector::compile` is the only way
/// to make a value, so the matcher is always the one compiled from the source.
pub struct CompiledSelector {
    source: String,
    matcher: Selector,
}

impl View for CompiledSelector {
    type V = Seq<char>;

    /// The selector's source text.
    closed spec fn view(&self) -> Seq<char> {
        self.source@
    }
}

impl CompiledSelector {
    /// Compiles a selector; `None` where its syntax is invalid.
    pub fn compile(source: &str) -> (compiled: Option<CompiledSelector>)
        ensures
            compiled is Some <==> selector_is_valid(source@),
            compiled matches Some(selector) ==> selector@ == source@,
    {
        compile_selector(source)
    }

    /// The selector's source text.
    pub fn source(&self) -> (text: &str)
        ensures
            text@ == self@,
    {
        self.source.as_str()
    }
}

/// Whether `scraper::Selector::parse` accepts `source`.
pub uninterp spec fn selector_is_valid(source: Seq<char>) -> bool;

/// For the elements that the selector compiled from `selector` matches in the
/// page parsed from `page`, in the order of `scraper::Html::select`: the
/// descendant text of each, concatenated (`ElementRef::text`).
pub uninterp spec fn texts_of(page: Seq<char>, selector: Seq<char>) -> Seq<Seq<char>>;

/// For the same elements in the same order: the serialized markup of each
/// element itself (`ElementRef::html`).
pub uninterp spec fn markups_of(page: Seq<char>, selector: Seq<char>) -> Seq<Seq<char>>;

/// For the same elements in the same order: the serialized markup of each
/// element's children (`ElementRef::inner_html`).
pub uninterp spec fn inner_markups_of(page: Seq<char>, selector: Seq<char>) -> Seq<Seq<char>>;

/// For the same elements in the same order: the value of the attribute
/// `name` of each, `None` where the element has no such attribute
/// (`Element::attr`).
pub uninterp spec fn attributes_of(page: Seq<char>, selector: Seq<char>, name: Seq<char>) -> Seq<
    Option<Seq<char>>,
>;

/// The plain text that `nanohtml2text::html2text` renders `markup` to.
pub uninterp spec fn flattened(markup: Seq<char>) -> Seq<char>;

/// The character sequences of a column of optional strings.
pub open spec fn optional_texts(column: Seq<Option<String>>) -> Seq<Option<Seq<char>>> {
    column.map_values(
        |entry: Option<String>|
            match entry {
                Some(s) => Some(s@),
                None => None,
            },
    )
}

/// Calls `scraper::Html::parse_document`, which never fails: malformed markup
/// still gives a tree. The source text is kept beside the tree.
#[verifier::external_body]
pub(crate) fn parse_document(body: &str) -> (page: Document)
    ensures
        page@ == body@,
{
    Document { source: body.to_owned(), tree: Html::parse_document(body) }
}

/// Calls `scraper::Selector::parse`, and keeps the source text beside the
/// compiled selector. `None` where the selector is refused.
#[verifier::external_body]
pub(crate) fn compile_selector(source: &str) -> (compiled: Option<CompiledSelector>)
    ensures
        compiled is Some <==> selector_is_valid(source@),
        compiled matches Some(selector) ==> selector@ == source@,
{
    match Selector::parse(source) {
        Ok(matcher) => Some(CompiledSelector { source: source.to_owned(), matcher }),
        Err(_) => None,
    }
}

/// Walks `scraper::Html::select` and collects `ElementRef::text` of each
/// matched element.
#[verifier::external_body]
pub(crate) fn text_column(page: &Document, selector: &CompiledSelector) -> (column: Vec<String>)
    ensures
        texts(column@) == texts_of(page@, selector@),
{
    page.tree.select(&selector.matcher).map(|element| element.text().collect::<String>()).collect()
}

/// Walks `scraper::Html::select` and collects `ElementRef::html` of each
/// matched element.
#[verifier::external_body]
pub(crate) fn markup_column(page: &Document, selector: &CompiledSelector) -> (column: Vec<String>)
    ensures
        texts(column@) == markups_of(page@, selector@),
{
    page.tree.select(&selector.matcher).map(|element| element.html()).collect()
}

/// Walks `scraper::Html::select` and collects `ElementRef::inner_html` of
/// each matched element.
#[verifier::external_body]
pub(crate) fn inner_markup_column(page: &Document, selector: &CompiledSelector) -> (column: Vec<
    String,
>)
    ensures
        texts(column@) == inner_markups_of(page@, selector@),
{
    page.tree.select(&selector.matcher).map(|element| element.inner_html()).collect()
}

/// Walks `scraper::Html::select` and collects `Element::attr` of each matched
/// element for the attribute `name`.
#[verifier::external_body]
pub(crate) fn attribute_column(page: &Document, selector: &CompiledSelector, name: &str) -> (column:
    Vec<Option<String>>)
    ensures
        optional_texts(column@) == attributes_of(page@, selector@, name@),
{
    page.tree.select(&selector.matcher).map(
        |element| element.value().attr(name).map(|value| value.to_owned()),
    ).collect()
}

/// Calls `nanohtml2text::html2text`.
#[verifier::external_body]
pub(crate) fn flatten_markup(markup: &str) -> (plain: String)
    ensures
        plain@ == flattened(markup@),
{
    nanohtml2text::html2text(markup)
}

} // verus!
