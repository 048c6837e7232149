//! Promises about what is read: the rules in a `robots.txt`, and what a page says of itself.
use vstd::prelude::*;

use crate::laws::text::starts;
use crate::laws::tracking::positions;
use crate::page::ElementModel;
use crate::robots::RobotLinesModel;

verus! {

/// A line, without white space at its ends, that names a crawler.
pub open spec fn names_a_crawler(line: Seq<char>) -> bool {
    &&& line.len() > 0
    &&& line[0] != '#'
    &&& starts(crate::text::lowercase(line), "user-agent:"@)
}

/// What stands in the line behind its first `n` characters, without white space at the ends.
pub open spec fn behind(line: Seq<char>, n: int) -> Seq<char> {
    crate::text::trimmed(
        if n <= line.len() {
            line.skip(n)
        } else {
            Seq::empty()
        },
    )
}

/// The line names every crawler or this one, in whatever case.
pub open spec fn is_for_us(line: Seq<char>) -> bool {
    &&& names_a_crawler(line)
    &&& crate::text::lowercase(behind(line, 11)) == "*"@ || crate::text::lowercase(
        behind(line, 11),
    ) == "meridianbot"@
}

/// The path that the line disallows.
pub open spec fn path_in(line: Seq<char>) -> Option<Seq<char>> {
    if line.len() > 0 && line[0] != '#' && !names_a_crawler(line) && starts(
        crate::text::lowercase(line),
        "disallow:"@,
    ) && behind(line, 9).len() > 0 {
        Some(behind(line, 9))
    } else {
        None
    }
}

/// The delay that the line asks for.
pub open spec fn delay_in(line: Seq<char>) -> Option<u64> {
    if line.len() > 0 && line[0] != '#' && !names_a_crawler(line) && !starts(
        crate::text::lowercase(line),
        "disallow:"@,
    ) && starts(crate::text::lowercase(line), "crawl-delay:"@) {
        crate::text::number(behind(line, 12))
    } else {
        None
    }
}

/// Only a line that names a crawler changes for whom the lines behind it are meant, and it
/// changes nothing else. No other line ends what is meant for this crawler. A line that is
/// not meant for this crawler changes nothing; one that is adds the path that it disallows,
/// or sets the delay that it asks for, and nothing else.
pub proof fn a_line_says_one_thing(known: RobotLinesModel, line: Seq<char>)
    ensures
        !names_a_crawler(line) ==> crate::robots::after_line(known, line).relevant
            == known.relevant,
        names_a_crawler(line) ==> crate::robots::after_line(known, line).relevant == is_for_us(
            line,
        ),
        crate::robots::after_line(known, line).disallowed == if known.relevant && path_in(
            line,
        ) is Some {
            known.disallowed.push(path_in(line)->0)
        } else {
            known.disallowed
        },
        crate::robots::after_line(known, line).crawl_delay == if known.relevant && delay_in(
            line,
        ) is Some {
            delay_in(line)->0
        } else {
            known.crawl_delay
        },
{
    let lower = crate::text::lowercase(line);
    crate::laws::text::beginning(lower, "user-agent:"@);
    crate::laws::text::beginning(lower, "disallow:"@);
    crate::laws::text::beginning(lower, "crawl-delay:"@);
}

/// What line `i` says is meant for this crawler: a line before it names this crawler or
/// every crawler, and no line between the two names any.
pub open spec fn meant_for_us(lines: Seq<Seq<char>>, i: int) -> bool {
    exists|j: int|
        0 <= j < i && #[trigger] is_for_us(crate::text::trimmed(lines[j])) && forall|k: int|
            j < k < i ==> !names_a_crawler(crate::text::trimmed(#[trigger] lines[k]))
}

/// The path that line `i` disallows this crawler.
pub open spec fn disallowed_by(lines: Seq<Seq<char>>, i: int) -> Option<Seq<char>> {
    if meant_for_us(lines, i) {
        path_in(crate::text::trimmed(lines[i]))
    } else {
        None
    }
}

/// The delay that line `i` asks of this crawler.
pub open spec fn delayed_by(lines: Seq<Seq<char>>, i: int) -> Option<u64> {
    if meant_for_us(lines, i) {
        delay_in(crate::text::trimmed(lines[i]))
    } else {
        None
    }
}

proof fn meaning_goes_on(lines: Seq<Seq<char>>, i: int)
    requires
        0 <= i < lines.len(),
    ensures
        meant_for_us(lines, i + 1) <==> is_for_us(crate::text::trimmed(lines[i])) || (meant_for_us(
            lines,
            i,
        ) && !names_a_crawler(crate::text::trimmed(lines[i]))),
        !meant_for_us(lines, 0),
{
    let line = crate::text::trimmed(lines[i]);
    if is_for_us(line) {
        assert(meant_for_us(lines, i + 1));
    }
    if meant_for_us(lines, i) && !names_a_crawler(line) {
        let j = choose|j: int|
            0 <= j < i && #[trigger] is_for_us(crate::text::trimmed(lines[j])) && forall|k: int|
                j < k < i ==> !names_a_crawler(crate::text::trimmed(#[trigger] lines[k]));
        assert(is_for_us(crate::text::trimmed(lines[j])));
        assert(meant_for_us(lines, i + 1));
    }
    if meant_for_us(lines, i + 1) && !is_for_us(line) {
        let j = choose|j: int|
            0 <= j < i + 1 && #[trigger] is_for_us(crate::text::trimmed(lines[j])) && forall|
                k: int,
            |
                j < k < i + 1 ==> !names_a_crawler(crate::text::trimmed(#[trigger] lines[k]));
        assert(j < i);
        assert(!names_a_crawler(crate::text::trimmed(lines[i])));
        assert(is_for_us(crate::text::trimmed(lines[j])));
        assert(meant_for_us(lines, i));
    }
}

proof fn lines_say(
    lines: Seq<Seq<char>>,
    n: int,
    paths: spec_fn(int) -> Option<Seq<char>>,
    delays: spec_fn(int) -> Option<u64>,
)
    requires
        0 <= n <= lines.len(),
        forall|i: int| #[trigger] paths(i) == disallowed_by(lines, i),
        forall|i: int| #[trigger] delays(i) == delayed_by(lines, i),
    ensures
        crate::robots::after_lines(lines.take(n)).relevant == meant_for_us(lines, n),
        crate::robots::after_lines(lines.take(n)).disallowed == positions(n).filter_map(paths),
        crate::robots::after_lines(lines.take(n)).crawl_delay == if positions(n).filter_map(
            delays,
        ).len() == 0 {
            5
        } else {
            positions(n).filter_map(delays).last()
        },
    decreases n,
{
    if n > 0 {
        lines_say(lines, n - 1, paths, delays);
        let before = lines.take(n - 1);
        assert(lines.take(n).drop_last() == before);
        assert(lines.take(n).last() == lines[n - 1]);
        let line = crate::text::trimmed(lines[n - 1]);
        a_line_says_one_thing(crate::robots::after_lines(before), line);
        meaning_goes_on(lines, n - 1);
        assert(positions(n).drop_last() == positions(n - 1));
        assert(positions(n).last() == n - 1);
        assert(paths(n - 1) == disallowed_by(lines, n - 1));
        assert(delays(n - 1) == delayed_by(lines, n - 1));
    } else {
        assert(lines.take(0) == Seq::<Seq<char>>::empty());
        assert(positions(0) == Seq::<int>::empty());
        assert(!meant_for_us(lines, 0));
    }
}

/// A `robots.txt` disallows the paths of all its lines that disallow one and are meant for
/// this crawler, in their order and whatever stands between them. The delay is that of the
/// last line that asks for one and is meant for this crawler, and five seconds where there
/// is none.
pub proof fn rules_are_those_meant_for_us(text: Seq<char>)
    ensures
        crate::robots::robots_say(text).disallowed == positions(
            crate::text::full_lines(text).len() as int,
        ).filter_map(|i: int| disallowed_by(crate::text::full_lines(text), i)),
        crate::robots::robots_say(text).crawl_delay == ({
            let delays = positions(crate::text::full_lines(text).len() as int).filter_map(
                |i: int| delayed_by(crate::text::full_lines(text), i),
            );
            if delays.len() == 0 {
                5
            } else {
                delays.last()
            }
        }),
{
    let lines = crate::text::full_lines(text);
    lines_say(
        lines,
        lines.len() as int,
        |i: int| disallowed_by(crate::text::full_lines(text), i),
        |i: int| delayed_by(crate::text::full_lines(text), i),
    );
    assert(lines.take(lines.len() as int) == lines);
}

proof fn a_kept_value_is_there<A, B>(list: Seq<A>, f: spec_fn(A) -> Option<B>, i: int)
    requires
        0 <= i < list.len(),
        f(list[i]) is Some,
    ensures
        list.filter_map(f).contains(f(list[i])->0),
    decreases list.len(),
{
    let front = list.drop_last();
    let all = list.filter_map(f);
    if i < list.len() - 1 {
        a_kept_value_is_there(front, f, i);
        let before = front.filter_map(f);
        let k = choose|k: int| 0 <= k < before.len() && before[k] == f(front[i])->0;
        assert(all[k] == f(list[i])->0);
    } else {
        assert(all[all.len() - 1] == f(list[i])->0);
    }
}

/// Every path that is disallowed behind a line for this crawler or every crawler counts,
/// whatever lines stand between the two, as long as none of them names a crawler.
pub proof fn blocks_last_until_the_next_crawler(text: Seq<char>, j: int, i: int)
    requires
        0 <= j < i < crate::text::full_lines(text).len(),
        is_for_us(crate::text::trimmed(crate::text::full_lines(text)[j])),
        forall|k: int|
            j < k <= i ==> !names_a_crawler(
                crate::text::trimmed(#[trigger] crate::text::full_lines(text)[k]),
            ),
        path_in(crate::text::trimmed(crate::text::full_lines(text)[i])) is Some,
    ensures
        crate::robots::robots_say(text).disallowed.contains(
            path_in(crate::text::trimmed(crate::text::full_lines(text)[i]))->0,
        ),
{
    let lines = crate::text::full_lines(text);
    rules_are_those_meant_for_us(text);
    assert(is_for_us(crate::text::trimmed(lines[j])));
    assert(meant_for_us(lines, i));
    let f = |i: int| disallowed_by(crate::text::full_lines(text), i);
    let list = positions(lines.len() as int);
    assert(list[i] == i);
    a_kept_value_is_there(list, f, i);
}

/// The title of a page is the text of its first title, else of its first heading, without
/// white space at the ends, and nothing where it has neither.
pub proof fn titles_come_from_titles_and_headings(html: Seq<char>)
    ensures
        crate::page::selected(html, "title"@).len() > 0 ==> crate::metadata::title_of(html)
            == crate::text::trimmed(crate::page::selected(html, "title"@)[0].text),
        crate::page::selected(html, "title"@).len() == 0 && crate::page::selected(
            html,
            "h1"@,
        ).len() > 0 ==> crate::metadata::title_of(html) == crate::text::trimmed(
            crate::page::selected(html, "h1"@)[0].text,
        ),
        crate::page::selected(html, "title"@).len() == 0 && crate::page::selected(
            html,
            "h1"@,
        ).len() == 0 ==> crate::metadata::title_of(html) == Seq::<char>::empty(),
{
}

/// The first 220 characters of a text, or all of it if it has no more.
pub open spec fn at_most_220(text: Seq<char>) -> Seq<char> {
    if text.len() <= 220 {
        text
    } else {
        text.take(220)
    }
}

proof fn snippet_of_paragraph(paragraphs: Seq<ElementModel>, from: int, i: int)
    requires
        0 <= from <= i <= paragraphs.len(),
        forall|j: int|
            from <= j < i ==> crate::text::words((#[trigger] paragraphs[j]).text).len() <= 15,
        i < paragraphs.len() ==> crate::text::words(paragraphs[i].text).len() > 15,
    ensures
        crate::metadata::paragraph_snippet(paragraphs, from) == if i < paragraphs.len() {
            at_most_220(paragraphs[i].text)
        } else {
            Seq::empty()
        },
    decreases i - from,
{
    if from < i {
        assert(crate::text::words(paragraphs[from].text).len() <= 15);
        snippet_of_paragraph(paragraphs, from + 1, i);
    }
}

/// The snippet of a page is what its first description says, if that says anything. Else it
/// is the beginning of the first paragraph of more than fifteen words: all of the paragraph
/// where that has no more than 220 characters, else its first 220. Where there is no such
/// paragraph it is nothing.
pub proof fn snippets_come_from_descriptions_and_paragraphs(
    descriptions: Seq<ElementModel>,
    paragraphs: Seq<ElementModel>,
    i: int,
)
    requires
        0 <= i <= paragraphs.len(),
        forall|j: int|
            0 <= j < i ==> crate::text::words((#[trigger] paragraphs[j]).text).len() <= 15,
        i < paragraphs.len() ==> crate::text::words(paragraphs[i].text).len() > 15,
    ensures
        crate::metadata::page_snippet(descriptions, paragraphs) == if descriptions.len() > 0
            && descriptions[0].content is Some {
            descriptions[0].content->0
        } else if i < paragraphs.len() {
            at_most_220(paragraphs[i].text)
        } else {
            Seq::empty()
        },
{
    snippet_of_paragraph(paragraphs, 0, i);
}

/// The snippet of a page comes from its descriptions and its paragraphs.
pub proof fn snippets_come_from_the_page(html: Seq<char>, i: int)
    requires
        0 <= i <= crate::page::selected(html, "p"@).len(),
        forall|j: int|
            0 <= j < i ==> crate::text::words(
                (#[trigger] crate::page::selected(html, "p"@)[j]).text,
            ).len() <= 15,
        i < crate::page::selected(html, "p"@).len() ==> crate::text::words(
            crate::page::selected(html, "p"@)[i].text,
        ).len() > 15,
    ensures
        crate::metadata::snippet_of(html) == ({
            let descriptions = crate::page::selected(html, "meta[name='description']"@);
            let paragraphs = crate::page::selected(html, "p"@);
            if descriptions.len() > 0 && descriptions[0].content is Some {
                descriptions[0].content->0
            } else if i < paragraphs.len() {
                at_most_220(paragraphs[i].text)
            } else {
                Seq::empty()
            }
        }),
{
    snippets_come_from_descriptions_and_paragraphs(
        crate::page::selected(html, "meta[name='description']"@),
        crate::page::selected(html, "p"@),
        i,
    );
}

/// Where an anchor on the page at `base` leads: nowhere without a reference, within the
/// page, into a script, or to what is no web address; else to the reference itself if it
/// begins with `http`, or to what it is when resolved against the base, without tracking
/// parameters.
pub open spec fn leads_to(anchor: ElementModel, base: Seq<char>) -> Option<Seq<char>> {
    if anchor.href is None || starts(anchor.href->0, "#"@) || starts(
        anchor.href->0,
        "javascript:"@,
    ) {
        None
    } else if starts(anchor.href->0, "http"@) {
        Some(crate::tracker_strip::cleaned_if_short(anchor.href->0))
    } else {
        match crate::web::url_join(base, anchor.href->0) {
            Some(target) => if starts(target, "http"@) {
                Some(crate::tracker_strip::cleaned_if_short(target))
            } else {
                None
            },
            None => None,
        }
    }
}

proof fn anchor_leads(anchor: ElementModel, base: Seq<char>)
    ensures
        crate::metadata::anchor_target(anchor, base) == leads_to(anchor, base),
{
    if let Some(reference) = anchor.href {
        crate::laws::text::beginning(reference, "#"@);
        crate::laws::text::beginning(reference, "javascript:"@);
        crate::laws::text::beginning(reference, "http"@);
        if let Some(target) = crate::web::url_join(base, reference) {
            crate::laws::text::beginning(target, "http"@);
        }
    }
}

/// The first 80 of a list, or all of it if it has no more.
pub open spec fn at_most_80(list: Seq<Seq<char>>) -> Seq<Seq<char>> {
    if list.len() <= 80 {
        list
    } else {
        list.take(80)
    }
}

proof fn links_are_gathered(
    anchors: Seq<ElementModel>,
    base: Seq<char>,
    leads: spec_fn(ElementModel) -> Option<Seq<char>>,
)
    requires
        forall|anchor: ElementModel| #[trigger] leads(anchor) == leads_to(anchor, base),
    ensures
        crate::metadata::page_links(anchors, base) == at_most_80(anchors.filter_map(leads)),
    decreases anchors.len(),
{
    if anchors.len() > 0 {
        links_are_gathered(anchors.drop_last(), base, leads);
        anchor_leads(anchors.last(), base);
        assert(leads(anchors.last()) == leads_to(anchors.last(), base));
        let before = anchors.drop_last().filter_map(leads);
        let all = anchors.filter_map(leads);
        if let Some(target) = leads_to(anchors.last(), base) {
            assert(all == before + seq![target]);
            assert(before + seq![target] == before.push(target));
        }
    }
}

/// The links of a page are where its anchors lead, in their order: the first 80 that lead
/// anywhere, or all if there are no more.
pub proof fn links_are_where_anchors_lead(html: Seq<char>, base: Seq<char>)
    ensures
        crate::metadata::links_of(html, base) == at_most_80(
            crate::page::selected(html, "a[href]"@).filter_map(
                |anchor: ElementModel| leads_to(anchor, base),
            ),
        ),
{
    links_are_gathered(
        crate::page::selected(html, "a[href]"@),
        base,
        |anchor: ElementModel| leads_to(anchor, base),
    );
}

/// Where a reference leads does not depend on how it is wrapped: it leads where an anchor
/// with that reference leads. What is resolved counts only if it begins with `http`.
pub proof fn references_lead_like_anchors(
    anchor: ElementModel,
    base: Seq<char>,
    resolved: Seq<char>,
)
    ensures
        anchor.href is Some ==> crate::metadata::link_target(anchor.href->0, base) == leads_to(
            anchor,
            base,
        ),
        crate::metadata::web_target(None) is None,
        crate::metadata::web_target(Some(resolved)) == if starts(resolved, "http"@) {
            Some(crate::tracker_strip::cleaned_if_short(resolved))
        } else {
            None
        },
{
    anchor_leads(anchor, base);
    crate::laws::text::beginning(resolved, "http"@);
}

} // verus!
