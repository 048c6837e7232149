//! What a site allows: `robots.txt`.
use vstd::prelude::*;

use crate::text::begins_with;
use crate::text::chars_of;
use crate::text::parse_number;
use crate::text::same_text;
use crate::text::split_full_lines;
use crate::text::text_of;
use crate::text::texts;
use crate::text::to_lowercase;
use crate::text::trim;

verus! {

/// The seconds between two requests to a domain where `robots.txt` names no others.
pub const DEFAULT_CRAWL_DELAY_SECS: u64 = 5;

/// What is read of a `robots.txt`.
pub struct RobotLines {
    /// The beginnings of the paths that are not to be crawled.
    pub disallowed: Vec<String>,
    /// The seconds to keep between two requests.
    pub crawl_delay: u64,
    /// The lines that follow are meant for this crawler.
    pub relevant: bool,
}

/// What is read of a `robots.txt` as a mathematical value.
#[verifier::ext_equal]
pub struct RobotLinesModel {
    pub disallowed: Seq<Seq<char>>,
    pub crawl_delay: u64,
    pub relevant: bool,
}

impl View for RobotLines {
    type V = RobotLinesModel;

    open spec fn view(&self) -> RobotLinesModel {
        RobotLinesModel {
            disallowed: texts(self.disallowed@),
            crawl_delay: self.crawl_delay,
            relevant: self.relevant,
        }
    }
}

/// What follows the first `n` characters, without white space at the ends.
pub open spec fn value_after(line: Seq<char>, n: int) -> Seq<char> {
    crate::text::trimmed(
        if n <= line.len() {
            line.skip(n)
        } else {
            Seq::empty()
        },
    )
}

/// A line that names this crawler or every crawler.
pub open spec fn names_us(agent: Seq<char>) -> bool {
    let lower = crate::text::lowercase(agent);
    lower == "*"@ || lower == "meridianbot"@
}

/// What is known after a line without white space at its ends.
pub open spec fn after_line(known: RobotLinesModel, line: Seq<char>) -> RobotLinesModel {
    let lower = crate::text::lowercase(line);
    if line.len() == 0 || line[0] == '#' {
        known
    } else if crate::text::begins(lower, "user-agent:"@) {
        RobotLinesModel { relevant: names_us(value_after(line, 11)), ..known }
    } else if !known.relevant {
        known
    } else if crate::text::begins(lower, "disallow:"@) {
        let path = value_after(line, 9);
        if path.len() > 0 {
            RobotLinesModel { disallowed: known.disallowed.push(path), ..known }
        } else {
            known
        }
    } else if crate::text::begins(lower, "crawl-delay:"@) {
        match crate::text::number(value_after(line, 12)) {
            Some(delay) => RobotLinesModel { crawl_delay: delay, ..known },
            None => known,
        }
    } else {
        known
    }
}

/// What is known after these lines, read one after the other.
pub open spec fn after_lines(lines: Seq<Seq<char>>) -> RobotLinesModel
    decreases lines.len(),
{
    if lines.len() == 0 {
        RobotLinesModel {
            disallowed: Seq::empty(),
            crawl_delay: DEFAULT_CRAWL_DELAY_SECS,
            relevant: false,
        }
    } else {
        after_line(after_lines(lines.drop_last()), crate::text::trimmed(lines.last()))
    }
}

/// What a `robots.txt` says.
pub open spec fn robots_say(text: Seq<char>) -> RobotLinesModel {
    after_lines(crate::text::full_lines(text))
}

fn value_text(line: &[char], n: usize) -> (value: String)
    ensures
        value@ == value_after(line@, n as int),
{
    if n <= line.len() {
        let rest = vstd::slice::slice_subrange(line, n, line.len());
        assert(rest@ == line@.skip(n as int));
        text_of(trim(rest))
    } else {
        let nothing: Vec<char> = Vec::new();
        text_of(trim(nothing.as_slice()))
    }
}

fn read_line(known: &mut RobotLines, line: &[char])
    ensures
        final(known)@ == after_line(old(known)@, line@),
{
    if line.len() == 0 || line[0] == '#' {
        return ;
    }
    let text = text_of(line);
    let lower_text = to_lowercase(text.as_str());
    let lower = chars_of(lower_text.as_str());
    if begins_with(lower.as_slice(), "user-agent:") {
        let agent = to_lowercase(value_text(line, 11).as_str());
        known.relevant = same_text(agent.as_str(), "*") || same_text(
            agent.as_str(),
            "meridianbot",
        );
    } else if known.relevant {
        if begins_with(lower.as_slice(), "disallow:") {
            let path = value_text(line, 9);
            if !path.as_str().is_empty() {
                let ghost before = texts(known.disallowed@);
                known.disallowed.push(path);
                assert(texts(known.disallowed@) == before.push(path@));
            }
        } else if begins_with(lower.as_slice(), "crawl-delay:") {
            let value = value_text(line, 12);
            let digits = chars_of(value.as_str());
            if let Some(delay) = parse_number(digits.as_slice()) {
                known.crawl_delay = delay;
            }
        }
    }
}

/// Reads a `robots.txt`: what it disallows this crawler or every crawler, and how long
/// to wait between two requests.
pub fn parse_robots(text: &str) -> (known: RobotLines)
    ensures
        known@ == robots_say(text@),
{
    let mut known = RobotLines {
        disallowed: Vec::new(),
        crawl_delay: DEFAULT_CRAWL_DELAY_SECS,
        relevant: false,
    };
    let chars = chars_of(text);
    let lines = split_full_lines(chars.as_slice());
    let ghost all = crate::text::chars_views(lines@);
    assert(known@ == after_lines(all.take(0)));
    for i in 0..lines.len()
        invariant
            all == crate::text::chars_views(lines@),
            known@ == after_lines(all.take(i as int)),
    {
        assert(all.take(i + 1).drop_last() == all.take(i as int));
        assert(all.take(i + 1).last() == lines@[i as int]@);
        read_line(&mut known, trim(lines[i].as_slice()));
    }
    assert(all.take(all.len() as int) == all);
    known
}

/// A line, without white space at its ends, that names this crawler or every crawler.
pub open spec fn addresses_us(line: Seq<char>) -> bool {
    &&& line.len() > 0
    &&& line[0] != '#'
    &&& crate::text::begins(crate::text::lowercase(line), "user-agent:"@)
    &&& names_us(value_after(line, 11))
}

/// A `robots.txt` that addresses neither this crawler nor every crawler disallows
/// nothing and leaves the delay as it is by default.
pub proof fn others_rules_do_not_count(lines: Seq<Seq<char>>)
    requires
        forall|i: int|
            0 <= i < lines.len() ==> !addresses_us(crate::text::trimmed(#[trigger] lines[i])),
    ensures
        after_lines(lines).disallowed == Seq::<Seq<char>>::empty(),
        after_lines(lines).crawl_delay == DEFAULT_CRAWL_DELAY_SECS,
        !after_lines(lines).relevant,
    decreases lines.len(),
{
    if lines.len() > 0 {
        assert forall|i: int| 0 <= i < lines.drop_last().len() implies !addresses_us(
            crate::text::trimmed(#[trigger] lines.drop_last()[i]),
        ) by {
            assert(lines[i] == lines.drop_last()[i]);
        }
        others_rules_do_not_count(lines.drop_last());
        assert(!addresses_us(crate::text::trimmed(lines[lines.len() - 1])));
    }
}

} // verus!
