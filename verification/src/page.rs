//! Elements of an HTML page, picked out by the `scraper` crate.
use scraper::Html;
use scraper::Selector;
use vstd::prelude::*;
use vstd::utf8::encode_utf8;

use crate::web::opt_text;

verus! {

/// What the crate reads of an element.
pub struct Element {
    pub src: Option<String>,
    pub href: Option<String>,
    pub content: Option<String>,
    pub width: Option<String>,
    pub height: Option<String>,
    pub inner_html: String,
    pub outer_html: String,
    pub text: String,
}

/// An element as a mathematical value.
pub struct ElementModel {
    pub src: Option<Seq<char>>,
    pub href: Option<Seq<char>>,
    pub content: Option<Seq<char>>,
    pub width: Option<Seq<char>>,
    pub height: Option<Seq<char>>,
    pub inner_html: Seq<char>,
    pub outer_html: Seq<char>,
    pub text: Seq<char>,
}

impl View for Element {
    type V = ElementModel;

    open spec fn view(&self) -> ElementModel {
        ElementModel {
            src: opt_text(self.src),
            href: opt_text(self.href),
            content: opt_text(self.content),
            width: opt_text(self.width),
            height: opt_text(self.height),
            inner_html: self.inner_html@,
            outer_html: self.outer_html@,
            text: self.text@,
        }
    }
}

/// What a list of elements holds.
pub open spec fn element_views(list: Seq<Element>) -> Seq<ElementModel> {
    Seq::new(list.len(), |i: int| list[i]@)
}

/// The longest page, in bytes, that is handed to the parser.
pub const MAX_PAGE_BYTES: usize = 0x1000_0000;

/// The page is short enough for the parser.
pub open spec fn parsable(html: Seq<char>) -> bool {
    encode_utf8(html).len() <= MAX_PAGE_BYTES
}

/// What `Html::select` picks out of a document by a selector.
pub uninterp spec fn selected(html: Seq<char>, selector: Seq<char>) -> Seq<ElementModel>;

/// `Html::select` on the document that `Html::parse_document` makes of `html`: the
/// elements that the selector matches, with the attributes, the HTML and the text that
/// `ElementRef` gives of them. A text that is no selector picks nothing. The parser counts
/// in 32 bits and panics where a text or a buffer outgrows them; a null character takes
/// three bytes in it, so the page is limited.
#[verifier::external_body]
pub(crate) fn select(html: &str, selector: &str) -> (found: Vec<Element>)
    requires
        parsable(html@),
    ensures
        element_views(found@) == selected(html@, selector@),
{
    let own = |value: Option<&str>| value.map(|text| text.to_string());
    match Selector::parse(selector) {
        Ok(selector) => Html::parse_document(html).select(&selector).map(|e| Element {
            src: own(e.value().attr("src")), href: own(e.value().attr("href")),
            content: own(e.value().attr("content")), width: own(e.value().attr("width")),
            height: own(e.value().attr("height")), inner_html: e.inner_html(),
            outer_html: e.html(), text: e.text().collect(),
        }).collect(),
        Err(_) => Vec::new(),
    }
}

} // verus!
