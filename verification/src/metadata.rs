//! What a page says of itself: its title, a snippet of its text, and its links.
use vstd::prelude::*;

use crate::page::select;
use crate::page::Element;
use crate::page::ElementModel;
use crate::text::begins_with;
use crate::text::chars_of;
use crate::text::split_words;
use crate::text::text_of;
use crate::text::texts;
use crate::text::trim;
use crate::tracker_strip::clean_url_if_short;
use crate::web::join_urls;

verus! {

/// The most links that are taken from a page.
pub const MAX_LINKS: usize = 80;

/// The most characters that a snippet takes from a paragraph.
pub const SNIPPET_CHARS: usize = 220;

/// A paragraph of more words than this makes a snippet.
pub const SNIPPET_WORDS: usize = 15;

/// The title of a page: the text of its title, else of its first heading.
pub open spec fn page_title(titles: Seq<ElementModel>, headings: Seq<ElementModel>) -> Seq<char> {
    if titles.len() > 0 {
        crate::text::trimmed(titles[0].text)
    } else if headings.len() > 0 {
        crate::text::trimmed(headings[0].text)
    } else {
        Seq::empty()
    }
}

/// The paragraph is long enough to make a snippet.
pub open spec fn long_enough(paragraph: ElementModel) -> bool {
    crate::text::words(paragraph.text).len() > SNIPPET_WORDS
}

/// The beginning of the first paragraph from `from` on that is long enough.
pub open spec fn paragraph_snippet(paragraphs: Seq<ElementModel>, from: int) -> Seq<char>
    decreases paragraphs.len() - from,
{
    if from < 0 || from >= paragraphs.len() {
        Seq::empty()
    } else if long_enough(paragraphs[from]) {
        let text = paragraphs[from].text;
        if text.len() > SNIPPET_CHARS {
            text.take(SNIPPET_CHARS as int)
        } else {
            text
        }
    } else {
        paragraph_snippet(paragraphs, from + 1)
    }
}

/// The snippet of a page: its description, else the beginning of the first paragraph
/// that is long enough.
pub open spec fn page_snippet(
    descriptions: Seq<ElementModel>,
    paragraphs: Seq<ElementModel>,
) -> Seq<char> {
    if descriptions.len() > 0 && descriptions[0].content is Some {
        descriptions[0].content->0
    } else {
        paragraph_snippet(paragraphs, 0)
    }
}

/// A resolved reference without tracking parameters, if it is a web address.
pub open spec fn web_target(resolved: Option<Seq<char>>) -> Option<Seq<char>> {
    match resolved {
        Some(target) => if crate::text::begins(target, "http"@) {
            Some(crate::tracker_strip::cleaned_if_short(target))
        } else {
            None
        },
        None => None,
    }
}

/// The web address that a reference on the page at `base` leads to, without tracking
/// parameters. References within the page, scripts and what is no web address lead
/// nowhere.
pub open spec fn link_target(reference: Seq<char>, base: Seq<char>) -> Option<Seq<char>> {
    if crate::text::begins(reference, "#"@) || crate::text::begins(reference, "javascript:"@) {
        None
    } else {
        let resolved = if crate::text::begins(reference, "http"@) {
            Some(reference)
        } else {
            crate::web::url_join(base, reference)
        };
        web_target(resolved)
    }
}

/// The address that an anchor on the page at `base` leads to.
pub open spec fn anchor_target(anchor: ElementModel, base: Seq<char>) -> Option<Seq<char>> {
    match anchor.href {
        Some(reference) => link_target(reference, base),
        None => None,
    }
}

/// The addresses that the anchors on the page at `base` lead to, in their order, up to
/// the most that are taken.
pub open spec fn page_links(anchors: Seq<ElementModel>, base: Seq<char>) -> Seq<Seq<char>>
    decreases anchors.len(),
{
    if anchors.len() == 0 {
        Seq::empty()
    } else {
        let before = page_links(anchors.drop_last(), base);
        match anchor_target(anchors.last(), base) {
            Some(target) => if before.len() < MAX_LINKS {
                before.push(target)
            } else {
                before
            },
            None => before,
        }
    }
}

fn trimmed_text(text: &str) -> (rest: String)
    ensures
        rest@ == crate::text::trimmed(text@),
{
    let chars = chars_of(text);
    text_of(trim(chars.as_slice()))
}

/// The title of a page from its titles and headings.
pub fn title_from(titles: &Vec<Element>, headings: &Vec<Element>) -> (title: String)
    ensures
        title@ == page_title(
            crate::page::element_views(titles@),
            crate::page::element_views(headings@),
        ),
{
    if titles.len() > 0 {
        trimmed_text(titles[0].text.as_str())
    } else if headings.len() > 0 {
        trimmed_text(headings[0].text.as_str())
    } else {
        String::new()
    }
}

/// The snippet of a page from its descriptions and paragraphs.
pub fn snippet_from(descriptions: &Vec<Element>, paragraphs: &Vec<Element>) -> (snippet: String)
    ensures
        snippet@ == page_snippet(
            crate::page::element_views(descriptions@),
            crate::page::element_views(paragraphs@),
        ),
{
    if descriptions.len() > 0 {
        if let Some(content) = &descriptions[0].content {
            return content.clone();
        }
    }
    let ghost all = crate::page::element_views(paragraphs@);
    for i in 0..paragraphs.len()
        invariant
            all == crate::page::element_views(paragraphs@),
            page_snippet(crate::page::element_views(descriptions@), all) == paragraph_snippet(
                all,
                0,
            ),
            paragraph_snippet(all, 0) == paragraph_snippet(all, i as int),
    {
        let chars = chars_of(paragraphs[i].text.as_str());
        assert(chars@ == all[i as int].text);
        let words = split_words(chars.as_slice());
        assert(crate::text::chars_views(words@).len() == words@.len());
        if words.len() > SNIPPET_WORDS {
            if chars.len() > SNIPPET_CHARS {
                let front = vstd::slice::slice_subrange(chars.as_slice(), 0, SNIPPET_CHARS);
                assert(front@ == chars@.take(SNIPPET_CHARS as int));
                return text_of(front);
            }
            return text_of(chars.as_slice());
        }
    }
    String::new()
}

/// The web address that a reference on the page at `base` leads to.
pub fn resolve_link(reference: &str, base: &str) -> (target: Option<String>)
    ensures
        crate::web::opt_text(target) == link_target(reference@, base@),
{
    let chars = chars_of(reference);
    if begins_with(chars.as_slice(), "#") || begins_with(chars.as_slice(), "javascript:") {
        return None;
    }
    let resolved = if begins_with(chars.as_slice(), "http") {
        Some(reference.to_owned())
    } else {
        join_urls(base, reference)
    };
    keep_web_address(resolved)
}

/// A resolved reference without tracking parameters, if it is a web address.
pub fn keep_web_address(resolved: Option<String>) -> (target: Option<String>)
    ensures
        crate::web::opt_text(target) == web_target(crate::web::opt_text(resolved)),
{
    match resolved {
        Some(address) => {
            let letters = chars_of(address.as_str());
            if !begins_with(letters.as_slice(), "http") {
                return None;
            }
            match clean_url_if_short(address.as_str()) {
                Some(clean) => Some(clean),
                None => Some(address),
            }
        },
        None => None,
    }
}

/// The addresses that the anchors on the page at `base` lead to.
pub fn links_from(anchors: &Vec<Element>, base: &str) -> (links: Vec<String>)
    ensures
        texts(links@) == page_links(crate::page::element_views(anchors@), base@),
{
    let ghost all = crate::page::element_views(anchors@);
    let mut links: Vec<String> = Vec::new();
    for i in 0..anchors.len()
        invariant
            all == crate::page::element_views(anchors@),
            texts(links@) == page_links(all.take(i as int), base@),
    {
        assert(all.take(i + 1).drop_last() == all.take(i as int));
        assert(all.take(i + 1).last() == anchors@[i as int]@);
        let ghost before = texts(links@);
        let target = match &anchors[i].href {
            Some(reference) => resolve_link(reference.as_str(), base),
            None => None,
        };
        if let Some(address) = target {
            if links.len() < MAX_LINKS {
                links.push(address);
                assert(texts(links@) == before.push(address@));
            }
        }
    }
    assert(all.take(all.len() as int) == all);
    links
}

/// The title of the page `html`.
pub open spec fn title_of(html: Seq<char>) -> Seq<char> {
    page_title(crate::page::selected(html, "title"@), crate::page::selected(html, "h1"@))
}

/// The snippet of the page `html`.
pub open spec fn snippet_of(html: Seq<char>) -> Seq<char> {
    page_snippet(
        crate::page::selected(html, "meta[name='description']"@),
        crate::page::selected(html, "p"@),
    )
}

/// The links on the page `html` at `base`.
pub open spec fn links_of(html: Seq<char>, base: Seq<char>) -> Seq<Seq<char>> {
    page_links(crate::page::selected(html, "a[href]"@), base)
}

/// Title, snippet and links of the page `html` at `base_url`.
pub fn extract_metadata(html: &str, base_url: &str) -> (found: (String, String, Vec<String>))
    requires
        crate::page::parsable(html@),
    ensures
        found.0@ == title_of(html@),
        found.1@ == snippet_of(html@),
        texts(found.2@) == links_of(html@, base_url@),
{
    let titles = select(html, "title");
    let headings = select(html, "h1");
    let descriptions = select(html, "meta[name='description']");
    let paragraphs = select(html, "p");
    let anchors = select(html, "a[href]");
    let title = title_from(&titles, &headings);
    let snippet = snippet_from(&descriptions, &paragraphs);
    let links = links_from(&anchors, base_url);
    (title, snippet, links)
}

/// A page gives no more than the most links that are taken, whatever stands on it.
pub proof fn links_are_limited(anchors: Seq<ElementModel>, base: Seq<char>)
    ensures
        page_links(anchors, base).len() <= MAX_LINKS,
    decreases anchors.len(),
{
    if anchors.len() > 0 {
        links_are_limited(anchors.drop_last(), base);
    }
}

} // verus!
