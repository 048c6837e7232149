//! Strings, as sequences of characters.
use vstd::prelude::*;
use vstd::utf8::encode_utf8;
use vstd::utf8::is_char_boundary;

verus! {

/// `String::push`: the character goes to the end.
pub assume_specification[ String::push ](text: &mut String, c: char)
    ensures
        final(text)@ == old(text)@.push(c),
;

/// The characters with the Unicode property `White_Space`.
pub open spec fn is_white(c: char) -> bool {
    ||| '\u{9}' <= c <= '\u{d}'
    ||| c == ' '
    ||| c == '\u{85}'
    ||| c == '\u{a0}'
    ||| c == '\u{1680}'
    ||| '\u{2000}' <= c <= '\u{200a}'
    ||| c == '\u{2028}'
    ||| c == '\u{2029}'
    ||| c == '\u{202f}'
    ||| c == '\u{205f}'
    ||| c == '\u{3000}'
}

/// `char::is_whitespace`: whether the character has the property `White_Space`.
pub assume_specification[ char::is_whitespace ](c: char) -> (white: bool)
    ensures
        white == is_white(c),
;

/// What `char::is_alphanumeric` says of a character beyond ASCII.
pub uninterp spec fn unicode_alphanumeric(c: char) -> bool;

/// A letter or a digit: of the ASCII characters `0` to `9`, `A` to `Z` and `a` to `z`, of
/// the others what Unicode calls alphabetic or numeric.
pub open spec fn alphanumeric(c: char) -> bool {
    if c <= '\u{7f}' {
        '0' <= c <= '9' || 'A' <= c <= 'Z' || 'a' <= c <= 'z'
    } else {
        unicode_alphanumeric(c)
    }
}

/// `char::is_alphanumeric`: whether the character is alphabetic or numeric by Unicode.
/// Of the ASCII characters these are the letters and the digits; of the others nothing
/// is said here but that the answer depends on the character alone.
pub assume_specification[ char::is_alphanumeric ](c: char) -> (yes: bool)
    ensures
        c > '\u{7f}' ==> yes == unicode_alphanumeric(c),
        c <= '\u{7f}' ==> yes == alphanumeric(c),
;

/// What `str::to_lowercase` makes of a text with characters beyond ASCII.
pub uninterp spec fn unicode_lowercase(text: Seq<char>) -> Seq<char>;

/// Only ASCII characters.
pub open spec fn ascii_only(text: Seq<char>) -> bool {
    forall|i: int| 0 <= i < text.len() ==> #[trigger] text[i] <= '\u{7f}'
}

/// The ASCII letter `c` in lower case; any other character as it is.
pub open spec fn ascii_lower_char(c: char) -> char {
    if 'A' <= c <= 'Z' {
        ((c as u32) + 32) as char
    } else {
        c
    }
}

/// `text` with its ASCII letters in lower case.
pub open spec fn ascii_lower(text: Seq<char>) -> Seq<char> {
    Seq::new(text.len(), |i: int| ascii_lower_char(text[i]))
}

/// `text` in lower case: its letters one for one if it is ASCII, else by the rules of
/// Unicode.
pub open spec fn lowercase(text: Seq<char>) -> Seq<char> {
    if ascii_only(text) {
        ascii_lower(text)
    } else {
        unicode_lowercase(text)
    }
}

/// `str::to_lowercase`: the text in lower case by Unicode. A text of ASCII characters
/// only has its letters replaced one for one; of any other text nothing is said here
/// but that the result depends on the text alone and is no shorter than it.
#[verifier::external_body]
pub(crate) fn to_lowercase(text: &str) -> (lower: String)
    ensures
        ascii_only(text@) ==> lower@ == ascii_lower(text@),
        !ascii_only(text@) ==> lower@ == unicode_lowercase(text@),
        lower@.len() >= text@.len(),
{
    text.to_lowercase()
}

/// `std::str::from_utf8`: the text that the bytes encode, exactly if they are UTF-8.
#[verifier::external_body]
pub(crate) fn from_utf8(bytes: &[u8]) -> (text: Option<String>)
    ensures
        text is Some <==> vstd::utf8::valid_utf8(bytes@),
        text is Some ==> text->0@ == vstd::utf8::decode_utf8(bytes@),
{
    match std::str::from_utf8(bytes) {
        Ok(text) => Some(text.to_string()),
        Err(_) => None,
    }
}

/// The characters of `text`, in order.
pub fn chars_of(text: &str) -> (chars: Vec<char>)
    ensures
        chars@ == text@,
{
    let mut chars: Vec<char> = Vec::new();
    for c in it: text.chars()
        invariant
            it.seq() == text@,
            chars@ == text@.take(it.index()),
    {
        chars.push(c);
    }
    chars
}

/// The text made of `chars`.
pub fn text_of(chars: &[char]) -> (text: String)
    ensures
        text@ == chars@,
{
    let mut text = String::new();
    for i in 0..chars.len()
        invariant
            text@ == chars@.take(i as int),
    {
        text.push(chars[i]);
    }
    text
}

/// Whether two texts are the same.
pub fn same_text(a: &str, b: &str) -> (same: bool)
    ensures
        same == (a@ == b@),
{
    let mut left = a.chars();
    let mut right = b.chars();
    let ghost mut read: Seq<char> = Seq::empty();
    assert(vstd::std_specs::iter::IteratorSpec::remaining(&left) == a@);
    assert(vstd::std_specs::iter::IteratorSpec::remaining(&right) == b@);
    loop
        invariant
            a@ == read + vstd::std_specs::iter::IteratorSpec::remaining(&left),
            b@ == read + vstd::std_specs::iter::IteratorSpec::remaining(&right),
        decreases a@.len() - read.len(),
    {
        let ghost before_left = vstd::std_specs::iter::IteratorSpec::remaining(&left);
        let ghost before_right = vstd::std_specs::iter::IteratorSpec::remaining(&right);
        let x = left.next();
        let y = right.next();
        match (x, y) {
            (None, None) => {
                return true;
            },
            (Some(c), Some(d)) => {
                if c != d {
                    assert(a@[read.len() as int] == c && b@[read.len() as int] == d);
                    return false;
                }
                proof {
                    read = read.push(c);
                }
            },
            _ => {
                assert(before_left.len() != before_right.len());
                return false;
            },
        }
    }
}

/// `text` without the white space in front.
pub open spec fn trimmed_front(text: Seq<char>) -> Seq<char>
    decreases text.len(),
{
    if text.len() > 0 && is_white(text[0]) {
        trimmed_front(text.drop_first())
    } else {
        text
    }
}

/// `text` without the white space behind.
pub open spec fn trimmed_back(text: Seq<char>) -> Seq<char>
    decreases text.len(),
{
    if text.len() > 0 && is_white(text.last()) {
        trimmed_back(text.drop_last())
    } else {
        text
    }
}

/// `text` without white space at its ends.
pub open spec fn trimmed(text: Seq<char>) -> Seq<char> {
    trimmed_back(trimmed_front(text))
}

/// The part of `chars` that is left without white space at the ends.
pub fn trim(chars: &[char]) -> (rest: &[char])
    ensures
        rest@ == trimmed(chars@),
{
    let mut start: usize = 0;
    assert(chars@.skip(0) == chars@);
    while start < chars.len() && chars[start].is_whitespace()
        invariant
            start <= chars.len(),
            trimmed_front(chars@) == trimmed_front(chars@.skip(start as int)),
        decreases chars.len() - start,
    {
        assert(chars@.skip(start as int).drop_first() == chars@.skip(start + 1));
        start = start + 1;
    }
    let ghost front = chars@.skip(start as int);
    assert(trimmed_front(chars@) == front);
    let mut end: usize = chars.len();
    while end > start && chars[end - 1].is_whitespace()
        invariant
            start <= end <= chars.len(),
            front == chars@.skip(start as int),
            trimmed_back(front) == trimmed_back(chars@.subrange(start as int, end as int)),
        decreases end,
    {
        assert(chars@.subrange(start as int, end as int).drop_last() == chars@.subrange(
            start as int,
            end - 1,
        ));
        end = end - 1;
    }
    vstd::slice::slice_subrange(chars, start, end)
}

/// `needle` stands in `hay` at position `at`.
pub open spec fn occurs_at(hay: Seq<char>, needle: Seq<char>, at: int) -> bool {
    0 <= at <= hay.len() - needle.len() && hay.subrange(at, at + needle.len()) == needle
}

/// `needle` stands somewhere in `hay`.
pub open spec fn occurs(hay: Seq<char>, needle: Seq<char>) -> bool {
    exists|at: int| occurs_at(hay, needle, at)
}

/// Whether `needle` stands in `hay` at position `at`.
pub fn stands_at(hay: &[char], needle: &[char], at: usize) -> (yes: bool)
    ensures
        yes == occurs_at(hay@, needle@, at as int),
{
    if needle.len() > hay.len() || at > hay.len() - needle.len() {
        return false;
    }
    for i in 0..needle.len()
        invariant
            at <= hay.len() - needle.len(),
            hay@.subrange(at as int, at + i) == needle@.take(i as int),
    {
        if hay[at + i] != needle[i] {
            assert(hay@.subrange(at as int, at + needle.len())[i as int] != needle@[i as int]);
            return false;
        }
        assert(hay@.subrange(at as int, at + i + 1) == hay@.subrange(at as int, at + i).push(
            hay@[at + i],
        ));
    }
    assert(needle@.take(needle.len() as int) == needle@);
    true
}

/// The first position from `from` on where `needle` stands in `hay`.
pub open spec fn next_occurrence(hay: Seq<char>, needle: Seq<char>, from: int) -> Option<int>
    decreases hay.len() + 1 - from,
{
    if from < 0 || from > hay.len() - needle.len() {
        None
    } else if occurs_at(hay, needle, from) {
        Some(from)
    } else {
        next_occurrence(hay, needle, from + 1)
    }
}

proof fn next_occurrence_skips(hay: Seq<char>, needle: Seq<char>, from: int, at: int)
    requires
        0 <= from <= at,
        forall|j: int| from <= j < at ==> !occurs_at(hay, needle, j),
    ensures
        next_occurrence(hay, needle, from) == next_occurrence(hay, needle, at),
    decreases at - from,
{
    if from < at {
        next_occurrence_skips(hay, needle, from + 1, at);
    }
}

/// An occurrence that is found is one, and comes no earlier than the search begins.
pub proof fn occurrence_is_sound(hay: Seq<char>, needle: Seq<char>, from: int)
    requires
        0 <= from,
    ensures
        next_occurrence(hay, needle, from) matches Some(at) ==> from <= at
            && occurs_at(hay, needle, at),
    decreases hay.len() + 1 - from,
{
    if from <= hay.len() - needle.len() && !occurs_at(hay, needle, from) {
        occurrence_is_sound(hay, needle, from + 1);
    }
}

/// Before the first occurrence there is none, and none at all if none is found.
pub proof fn occurrence_is_first(hay: Seq<char>, needle: Seq<char>, from: int)
    requires
        0 <= from,
    ensures
        match next_occurrence(hay, needle, from) {
            Some(found) => forall|at: int|
                from <= at < found ==> !#[trigger] occurs_at(hay, needle, at),
            None => forall|at: int| from <= at ==> !#[trigger] occurs_at(hay, needle, at),
        },
    decreases hay.len() + 1 - from,
{
    if from <= hay.len() - needle.len() && !occurs_at(hay, needle, from) {
        occurrence_is_first(hay, needle, from + 1);
    }
}

/// What a position in a program says as a mathematical value.
pub open spec fn opt_int(at: Option<usize>) -> Option<int> {
    match at {
        Some(found) => Some(found as int),
        None => None,
    }
}

/// Where `needle` stands in `hay` for the first time from position `from` on.
pub fn find_from(hay: &[char], needle: &[char], from: usize) -> (found: Option<usize>)
    ensures
        opt_int(found) == next_occurrence(hay@, needle@, from as int),
        match found {
            Some(at) => from <= at && occurs_at(hay@, needle@, at as int) && forall|j: int|
                from <= j < at ==> !occurs_at(hay@, needle@, j),
            None => forall|j: int| from <= j ==> !occurs_at(hay@, needle@, j),
        },
{
    if needle.len() > hay.len() {
        return None;
    }
    let last: usize = hay.len() - needle.len();
    let mut at: usize = from;
    while at <= last
        invariant
            from <= at,
            last == hay.len() - needle.len(),
            forall|j: int| from <= j < at ==> !occurs_at(hay@, needle@, j),
        decreases last + 1 - at,
    {
        proof {
            next_occurrence_skips(hay@, needle@, from as int, at as int);
        }
        if stands_at(hay, needle, at) {
            return Some(at);
        }
        if at == last {
            proof {
                next_occurrence_skips(hay@, needle@, from as int, at + 1);
            }
            return None;
        }
        at = at + 1;
    }
    proof {
        next_occurrence_skips(hay@, needle@, from as int, at as int);
    }
    None
}

/// Whether `needle` stands somewhere in `hay`.
pub fn contains(hay: &[char], needle: &str) -> (yes: bool)
    ensures
        yes == occurs(hay@, needle@),
{
    let pattern = chars_of(needle);
    match find_from(hay, pattern.as_slice(), 0) {
        Some(at) => {
            assert(occurs_at(hay@, needle@, at as int));
            true
        },
        None => false,
    }
}

/// `text` begins with `front`.
pub open spec fn begins(text: Seq<char>, front: Seq<char>) -> bool {
    text.len() >= front.len() && text.take(front.len() as int) == front
}

/// `text` ends with `back`.
pub open spec fn ends(text: Seq<char>, back: Seq<char>) -> bool {
    text.len() >= back.len() && text.skip(text.len() - back.len()) == back
}

/// Whether `text` begins with `front`.
pub fn begins_with(text: &[char], front: &str) -> (yes: bool)
    ensures
        yes == begins(text@, front@),
{
    let pattern = chars_of(front);
    let yes = stands_at(text, pattern.as_slice(), 0);
    proof {
        if text@.len() >= front@.len() {
            assert(text@.subrange(0, 0int + front@.len()) == text@.take(front@.len() as int));
        }
    }
    yes
}

/// Whether `text` ends with `back`.
pub fn ends_with(text: &[char], back: &str) -> (yes: bool)
    ensures
        yes == ends(text@, back@),
{
    let pattern = chars_of(back);
    if pattern.len() > text.len() {
        return false;
    }
    let at: usize = text.len() - pattern.len();
    assert(text@.subrange(at as int, at + back@.len()) == text@.skip(text@.len() - back@.len()));
    stands_at(text, pattern.as_slice(), at)
}

/// The longest runs of characters in `text` that are no separators, in order.
pub open spec fn fields(text: Seq<char>, separates: spec_fn(char) -> bool) -> Seq<Seq<char>>
    decreases text.len(),
{
    if text.len() == 0 {
        Seq::empty()
    } else {
        let before = fields(text.drop_last(), separates);
        if separates(text.last()) {
            before
        } else if text.len() > 1 && !separates(text[text.len() - 2]) {
            before.drop_last().push(before.last().push(text.last()))
        } else {
            before.push(seq![text.last()])
        }
    }
}

/// What the vectors of `list` hold.
pub open spec fn chars_views(list: Seq<Vec<char>>) -> Seq<Seq<char>> {
    Seq::new(list.len(), |i: int| list[i]@)
}

/// What the slices of `list` hold.
pub open spec fn str_texts(list: Seq<&str>) -> Seq<Seq<char>> {
    Seq::new(list.len(), |i: int| list[i]@)
}

/// What the strings of `list` hold.
pub open spec fn texts(list: Seq<String>) -> Seq<Seq<char>> {
    Seq::new(list.len(), |i: int| list[i]@)
}

/// The runs of characters between those that `separates` picks out.
pub(crate) fn split_fields<F: Fn(char) -> bool>(
    chars: &[char],
    separates: F,
    Ghost(spec): Ghost<spec_fn(char) -> bool>,
) -> (found: Vec<Vec<char>>)
    requires
        forall|c: char| call_requires(separates, (c,)),
        forall|c: char, yes: bool| call_ensures(separates, (c,), yes) ==> yes == spec(c),
    ensures
        chars_views(found@) == fields(chars@, spec),
{
    let mut found: Vec<Vec<char>> = Vec::new();
    let mut run: Vec<char> = Vec::new();
    for i in 0..chars.len()
        invariant
            forall|c: char| call_requires(separates, (c,)),
            forall|c: char, yes: bool| call_ensures(separates, (c,), yes) ==> yes == spec(c),
            run@.len() > 0 <==> i > 0 && !spec(chars@[i - 1]),
            run@.len() == 0 ==> chars_views(found@) == fields(chars@.take(i as int), spec),
            run@.len() > 0 ==> chars_views(found@).push(run@) == fields(
                chars@.take(i as int),
                spec,
            ),
    {
        let c = chars[i];
        let ghost before = chars@.take(i as int);
        let ghost after = chars@.take(i + 1);
        let ghost old_found = chars_views(found@);
        let ghost old_run = run@;
        assert(after.drop_last() == before);
        assert(after.last() == c);
        if separates(c) {
            if run.len() > 0 {
                found.push(run);
                assert(chars_views(found@) == old_found.push(old_run));
                run = Vec::new();
            }
        } else {
            run.push(c);
            proof {
                if i > 0 {
                    assert(after[after.len() - 2] == chars@[i - 1]);
                }
                if old_run.len() > 0 {
                    assert(old_found.push(old_run).drop_last() == old_found);
                } else {
                    assert(run@ == seq![c]);
                }
                assert(fields(after, spec) == old_found.push(run@));
            }
        }
    }
    assert(chars@.take(chars@.len() as int) == chars@);
    if run.len() > 0 {
        let ghost old_found = chars_views(found@);
        let ghost old_run = run@;
        found.push(run);
        assert(chars_views(found@) == old_found.push(old_run));
    }
    found
}

/// No run is empty.
pub proof fn fields_are_full(text: Seq<char>, separates: spec_fn(char) -> bool)
    ensures
        forall|i: int|
            0 <= i < fields(text, separates).len() ==> (#[trigger] fields(text, separates)[i]).len()
                > 0,
        text.len() > 0 && !separates(text.last()) ==> fields(text, separates).len() > 0,
    decreases text.len(),
{
    if text.len() > 0 {
        let front = text.drop_last();
        fields_are_full(front, separates);
        let before = fields(front, separates);
        assert forall|i: int| 0 <= i < fields(text, separates).len() implies (
        #[trigger] fields(text, separates)[i]).len() > 0 by {
            if i < before.len() {
                assert(before[i].len() > 0);
            }
        }
        if text.len() > 1 {
            assert(front.last() == text[text.len() - 2]);
        }
    }
}

/// The runs of two texts with a separator between them are those of the one, followed by
/// those of the other.
pub proof fn runs_add_up(
    a: Seq<char>,
    separator: char,
    b: Seq<char>,
    separates: spec_fn(char) -> bool,
)
    requires
        separates(separator),
    ensures
        fields(a + seq![separator] + b, separates) == fields(a, separates) + fields(b, separates),
    decreases b.len(),
{
    let front = a + seq![separator];
    let text = front + b;
    if b.len() == 0 {
        assert(text.drop_last() == a);
        assert(text.last() == separator);
        assert(fields(a, separates) + fields(b, separates) == fields(a, separates));
    } else {
        let less = b.drop_last();
        runs_add_up(a, separator, less, separates);
        assert(text.drop_last() == front + less);
        assert(text.last() == b.last());
        let x = fields(a, separates);
        let y = fields(less, separates);
        if b.len() > 1 {
            assert(text[text.len() - 2] == b[b.len() - 2]);
            if !separates(b.last()) && !separates(b[b.len() - 2]) {
                fields_are_full(less, separates);
                assert(less.last() == b[b.len() - 2]);
                assert((x + y).drop_last() == x + y.drop_last());
                assert((x + y).last() == y.last());
            }
        } else {
            assert(text[text.len() - 2] == separator);
        }
        assert(fields(text, separates) == x + fields(b, separates));
    }
}

/// A run holds no separator, and only what stands in the text.
pub proof fn runs_hold_no_separator(text: Seq<char>, separates: spec_fn(char) -> bool)
    ensures
        forall|i: int, k: int|
            0 <= i < fields(text, separates).len() && 0 <= k < fields(text, separates)[i].len()
                ==> !separates(#[trigger] fields(text, separates)[i][k]) && text.contains(
                fields(text, separates)[i][k],
            ),
    decreases text.len(),
{
    if text.len() > 0 {
        let front = text.drop_last();
        runs_hold_no_separator(front, separates);
        let before = fields(front, separates);
        let all = fields(text, separates);
        if text.len() > 1 {
            fields_are_full(front, separates);
            assert(front.last() == text[text.len() - 2]);
        }
        assert forall|i: int, k: int| 0 <= i < all.len() && 0 <= k < all[i].len() implies
            !separates(#[trigger] all[i][k]) && text.contains(all[i][k]) by {
            if i < before.len() && k < before[i].len() {
                assert(all[i][k] == before[i][k]);
                let p = choose|p: int| 0 <= p < front.len() && front[p] == before[i][k];
                assert(text[p] == all[i][k]);
            } else {
                assert(all[i][k] == text.last());
                assert(text[text.len() - 1] == all[i][k]);
            }
        }
    }
}

/// The words of `text`: its runs of characters between white space.
pub open spec fn words(text: Seq<char>) -> Seq<Seq<char>> {
    fields(text, |c: char| is_white(c))
}

/// The words of `text`.
pub fn split_words(chars: &[char]) -> (found: Vec<Vec<char>>)
    ensures
        chars_views(found@) == words(chars@),
{
    let white = |c: char| -> (yes: bool)
        ensures
            yes == is_white(c),
        {
            c.is_whitespace()
        };
    split_fields(chars, white, Ghost(|c: char| is_white(c)))
}

/// The lines of `text` that are not empty.
pub open spec fn full_lines(text: Seq<char>) -> Seq<Seq<char>> {
    fields(text, |c: char| c == '\n')
}

/// The lines of `text` that are not empty.
pub fn split_full_lines(chars: &[char]) -> (found: Vec<Vec<char>>)
    ensures
        chars_views(found@) == full_lines(chars@),
{
    let line_feed = |c: char| -> (yes: bool)
        ensures
            yes == (c == '\n'),
        {
            c == '\n'
        };
    split_fields(chars, line_feed, Ghost(|c: char| c == '\n'))
}

/// How often `needle` stands in `hay` from `from` on, counted from the left without
/// overlap. An empty `needle` stands before each character and at the end.
pub open spec fn match_count(hay: Seq<char>, needle: Seq<char>, from: int) -> nat
    decreases hay.len() + 1 - from,
{
    if from < 0 || from > hay.len() - needle.len() {
        0
    } else if !occurs_at(hay, needle, from) {
        match_count(hay, needle, from + 1)
    } else if needle.len() == 0 {
        1 + match_count(hay, needle, from + 1)
    } else {
        1 + match_count(hay, needle, from + needle.len())
    }
}

proof fn match_count_skips(hay: Seq<char>, needle: Seq<char>, from: int, at: int)
    requires
        0 <= from <= at,
        forall|j: int| from <= j < at ==> !occurs_at(hay, needle, j),
    ensures
        match_count(hay, needle, from) == match_count(hay, needle, at),
    decreases at - from,
{
    if from < at {
        match_count_skips(hay, needle, from + 1, at);
    }
}

/// A text is counted at least once where it stands, and never where it does not stand.
pub proof fn match_count_is_positive(hay: Seq<char>, needle: Seq<char>)
    ensures
        match_count(hay, needle, 0) > 0 <==> occurs(hay, needle),
{
    if occurs(hay, needle) {
        let at = choose|at: int| occurs_at(hay, needle, at);
        positive_from(hay, needle, 0, at);
    } else {
        match_count_skips(hay, needle, 0, hay.len() + 1int);
    }
}

proof fn positive_from(hay: Seq<char>, needle: Seq<char>, from: int, at: int)
    requires
        0 <= from <= at,
        occurs_at(hay, needle, at),
    ensures
        match_count(hay, needle, from) > 0,
    decreases at - from,
{
    if !occurs_at(hay, needle, from) {
        positive_from(hay, needle, from + 1, at);
    }
}

/// How often `needle` stands in `hay`, counted from the left without overlap.
pub fn count_matches(hay: &[char], needle: &[char]) -> (count: usize)
    requires
        needle.len() > 0,
    ensures
        count == match_count(hay@, needle@, 0),
{
    let mut count: usize = 0;
    let mut from: usize = 0;
    loop
        invariant
            needle.len() > 0,
            from <= hay.len(),
            count <= from,
            count + match_count(hay@, needle@, from as int) == match_count(hay@, needle@, 0),
        decreases hay.len() + 1 - from,
    {
        match find_from(hay, needle, from) {
            Some(at) => {
                proof {
                    match_count_skips(hay@, needle@, from as int, at as int);
                }
                count = count + 1;
                from = at + needle.len();
            },
            None => {
                proof {
                    match_count_skips(hay@, needle@, from as int, hay@.len() + 1int);
                }
                return count;
            },
        }
    }
}

/// The first position from `from` on where `c` stands in `text`; the end if there is none.
pub open spec fn next_at(text: Seq<char>, c: char, from: int) -> int
    decreases text.len() - from,
{
    if from < 0 || from >= text.len() {
        text.len() as int
    } else if text[from] == c {
        from
    } else {
        next_at(text, c, from + 1)
    }
}

/// The first position from `from` on where `c` stands in `text`; the end if there is none.
pub fn find_char(text: &[char], c: char, from: usize) -> (at: usize)
    ensures
        at == next_at(text@, c, from as int),
        from <= text.len() ==> from <= at <= text.len(),
        at < text.len() ==> text@[at as int] == c,
{
    let mut at: usize = from;
    while at < text.len()
        invariant
            from <= at,
            from <= text.len() ==> at <= text.len(),
            next_at(text@, c, from as int) == next_at(text@, c, at as int),
        decreases text.len() - at,
    {
        if text[at] == c {
            return at;
        }
        at = at + 1;
    }
    text.len()
}

/// How often `c` stands in `text`.
pub open spec fn char_count(text: Seq<char>, c: char) -> nat
    decreases text.len(),
{
    if text.len() == 0 {
        0
    } else {
        char_count(text.drop_last(), c) + if text.last() == c {
            1nat
        } else {
            0nat
        }
    }
}

/// How often `c` stands in `text`.
pub fn count_char(text: &[char], c: char) -> (count: usize)
    ensures
        count == char_count(text@, c),
{
    let mut count: usize = 0;
    for i in 0..text.len()
        invariant
            count <= i,
            count == char_count(text@.take(i as int), c),
    {
        assert(text@.take(i + 1).drop_last() == text@.take(i as int));
        if text[i] == c {
            count = count + 1;
        }
    }
    assert(text@.take(text@.len() as int) == text@);
    count
}

/// The number that decimal digits stand for.
pub open spec fn digits_value(digits: Seq<char>) -> nat
    decreases digits.len(),
{
    if digits.len() == 0 {
        0
    } else {
        digits_value(digits.drop_last()) * 10 + (digits.last() as nat - '0' as nat) as nat
    }
}

/// Only decimal digits.
pub open spec fn all_digits(text: Seq<char>) -> bool {
    forall|i: int| 0 <= i < text.len() ==> '0' <= #[trigger] text[i] <= '9'
}

/// `text` without a plus sign in front.
pub open spec fn without_plus(text: Seq<char>) -> Seq<char> {
    if text.len() > 0 && text[0] == '+' {
        text.drop_first()
    } else {
        text
    }
}

/// The number that `text` writes: a plus sign or none, then decimal digits, at least
/// one, of a value that 64 bits hold.
pub open spec fn number(text: Seq<char>) -> Option<u64> {
    let digits = without_plus(text);
    if digits.len() > 0 && all_digits(digits) && digits_value(digits) <= u64::MAX {
        Some(digits_value(digits) as u64)
    } else {
        None
    }
}

/// The number that `text` writes, if it writes one.
pub fn parse_number(text: &[char]) -> (parsed: Option<u64>)
    ensures
        parsed == number(text@),
{
    let start: usize = if text.len() > 0 && text[0] == '+' {
        1
    } else {
        0
    };
    let ghost digits = without_plus(text@);
    assert(digits == text@.skip(start as int));
    if start == text.len() {
        return None;
    }
    let mut value: u64 = 0;
    let mut in_range = true;
    for i in start..text.len()
        invariant
            start <= text.len(),
            digits == text@.skip(start as int),
            digits == without_plus(text@),
            forall|j: int| 0 <= j < i - start ==> '0' <= #[trigger] digits[j] <= '9',
            in_range ==> value == digits_value(digits.take(i - start)),
            !in_range ==> digits_value(digits.take(i - start)) > u64::MAX,
    {
        let c = text[i];
        assert(digits[i - start] == c);
        if c < '0' || c > '9' {
            return None;
        }
        let digit: u64 = (c as u32 - '0' as u32) as u64;
        assert(digits.take(i + 1 - start).drop_last() == digits.take(i - start));
        if in_range {
            if value > (u64::MAX - digit) / 10 {
                in_range = false;
            } else {
                value = value * 10 + digit;
            }
        }
    }
    assert(digits.take(text@.len() - start) == digits);
    if in_range {
        Some(value)
    } else {
        None
    }
}

/// Two texts differ at most in the case of their ASCII letters.
pub open spec fn same_but_case(a: Seq<char>, b: Seq<char>) -> bool {
    ascii_lower(a) == ascii_lower(b)
}

fn lower_char(c: char) -> (lower: char)
    ensures
        lower == ascii_lower_char(c),
{
    if 'A' <= c && c <= 'Z' {
        (c as u8 + 32) as char
    } else {
        c
    }
}

/// Whether two texts differ at most in the case of their ASCII letters.
pub fn same_text_but_case(a: &str, b: &str) -> (same: bool)
    ensures
        same == same_but_case(a@, b@),
{
    let left = chars_of(a);
    let right = chars_of(b);
    if left.len() != right.len() {
        assert(ascii_lower(a@).len() != ascii_lower(b@).len());
        return false;
    }
    for i in 0..left.len()
        invariant
            left@ == a@,
            right@ == b@,
            left.len() == right.len(),
            forall|j: int| 0 <= j < i ==> ascii_lower(a@)[j] == ascii_lower(b@)[j],
    {
        if lower_char(left[i]) != lower_char(right[i]) {
            assert(ascii_lower(a@)[i as int] != ascii_lower(b@)[i as int]);
            return false;
        }
    }
    assert(ascii_lower(a@) == ascii_lower(b@));
    true
}

/// Puts `more` at the end of `chars`.
pub fn append_chars(chars: &mut Vec<char>, more: &[char])
    ensures
        final(chars)@ == old(chars)@ + more@,
{
    for i in 0..more.len()
        invariant
            chars@ == old(chars)@ + more@.take(i as int),
    {
        chars.push(more[i]);
    }
}

/// How many bytes the first `n` characters of `text` take in UTF-8.
pub open spec fn bytes_before(text: Seq<char>, n: int) -> int {
    encode_utf8(text.take(n)).len() as int
}

/// The bytes of two texts, one behind the other, are those of the one and then those of
/// the other.
pub proof fn encoding_adds_up(a: Seq<char>, b: Seq<char>)
    ensures
        encode_utf8(a + b) == encode_utf8(a) + encode_utf8(b),
    decreases a.len(),
{
    if a.len() == 0 {
        assert(a + b == b);
    } else {
        encoding_adds_up(a.drop_first(), b);
        assert((a + b).drop_first() == a.drop_first() + b);
    }
}

/// Behind each character a text can be cut in two.
pub proof fn characters_end_at_boundaries(text: Seq<char>, n: int)
    requires
        0 <= n <= text.len(),
    ensures
        0 <= bytes_before(text, n) <= encode_utf8(text).len(),
        is_char_boundary(encode_utf8(text), bytes_before(text, n)),
        encode_utf8(text).subrange(0, bytes_before(text, n)) == encode_utf8(text.take(n)),
        encode_utf8(text).subrange(bytes_before(text, n), encode_utf8(text).len() as int)
            == encode_utf8(text.skip(n)),
{
    let bytes = encode_utf8(text);
    let at = bytes_before(text, n);
    encoding_adds_up(text.take(n), text.skip(n));
    assert(text == text.take(n) + text.skip(n));
    vstd::utf8::encode_utf8_valid_utf8(text);
    vstd::utf8::encode_utf8_valid_utf8(text.skip(n));
    if at < bytes.len() {
        let rest = encode_utf8(text.skip(n));
        vstd::utf8::is_char_boundary_start_end_of_seq(rest);
        vstd::utf8::is_char_boundary_iff_not_is_continuation_byte(rest, 0);
        vstd::utf8::is_char_boundary_iff_not_is_continuation_byte(bytes, at);
        assert(rest[0] == bytes[at]);
    } else {
        vstd::utf8::is_char_boundary_start_end_of_seq(bytes);
    }
}

/// More characters take no fewer bytes.
pub proof fn bytes_grow(text: Seq<char>, n: int, m: int)
    requires
        0 <= n <= m <= text.len(),
    ensures
        bytes_before(text, n) <= bytes_before(text, m),
{
    encoding_adds_up(text.take(n), text.subrange(n, m));
    assert(text.take(m) == text.take(n) + text.subrange(n, m));
}

/// How many bytes the first `n` characters take in UTF-8.
pub(crate) fn count_bytes(chars: &[char], n: usize) -> (count: usize)
    requires
        n <= chars@.len(),
    ensures
        count == bytes_before(chars@, n as int),
{
    let front = vstd::slice::slice_subrange(chars, 0, n);
    assert(front@ == chars@.take(n as int));
    text_of(front).as_str().as_bytes().len()
}

} // verus!
