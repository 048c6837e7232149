//! Promises about texts: what it means to begin, to end and to hold, to trim, to split and
//! to count.
use vstd::prelude::*;

verus! {

/// `part` stands somewhere in `text`.
pub open spec fn holds(text: Seq<char>, part: Seq<char>) -> bool {
    exists|front: Seq<char>, back: Seq<char>| text == #[trigger] (front + part + back)
}

/// `part` stands in `text` behind `n` characters.
pub open spec fn holds_behind(text: Seq<char>, part: Seq<char>, n: int) -> bool {
    exists|front: Seq<char>, back: Seq<char>|
        front.len() == n && text == #[trigger] (front + part + back)
}

/// `text` starts with `part`.
pub open spec fn starts(text: Seq<char>, part: Seq<char>) -> bool {
    exists|back: Seq<char>| text == #[trigger] (part + back)
}

/// `text` finishes with `part`.
pub open spec fn finishes(text: Seq<char>, part: Seq<char>) -> bool {
    exists|front: Seq<char>| text == #[trigger] (front + part)
}

/// Nothing but white space.
pub open spec fn blank(text: Seq<char>) -> bool {
    forall|i: int| 0 <= i < text.len() ==> crate::text::is_white(#[trigger] text[i])
}

/// The one character is the other, or the same ASCII letter in the other case.
pub open spec fn alike_chars(a: char, b: char) -> bool {
    ||| a == b
    ||| 'A' <= a <= 'Z' && b as int == a as int + 32
    ||| 'A' <= b <= 'Z' && a as int == b as int + 32
}

/// The texts are equally long and alike in every character.
pub open spec fn alike(a: Seq<char>, b: Seq<char>) -> bool {
    a.len() == b.len() && forall|i: int| 0 <= i < a.len() ==> alike_chars(#[trigger] a[i], b[i])
}

/// Lower case takes the ASCII letters of an ASCII text one for one and leaves its other
/// characters alone; of any other text it is what Unicode says.
pub proof fn lower_case(text: Seq<char>, i: int)
    requires
        0 <= i < text.len(),
    ensures
        (forall|k: int| 0 <= k < text.len() ==> #[trigger] text[k] <= '\u{7f}')
            ==> crate::text::lowercase(text).len() == text.len() && crate::text::lowercase(
            text,
        )[i] as int == if 'A' <= text[i] <= 'Z' {
            text[i] as int + 32
        } else {
            text[i] as int
        },
        text[i] > '\u{7f}' ==> crate::text::lowercase(text) == crate::text::unicode_lowercase(
            text,
        ),
{
}

/// Of the ASCII characters, the digits and the letters make up words, and the space and the
/// five control characters from the tab on are white space; beyond ASCII Unicode decides what
/// makes up words.
pub proof fn kinds_of_characters(c: char)
    ensures
        c <= '\u{7f}' ==> (crate::text::alphanumeric(c) <==> ('0' <= c <= '9') || ('A' <= c <= 'Z')
            || ('a' <= c <= 'z')),
        c > '\u{7f}' ==> crate::text::alphanumeric(c) == crate::text::unicode_alphanumeric(c),
        c <= '\u{7f}' ==> (crate::text::is_white(c) <==> c == ' ' || c == '\t' || c == '\n' || c
            == '\r' || c == '\u{b}' || c == '\u{c}'),
{
}

/// A text stands at a position exactly if the whole is made of so many characters, the
/// text, and a rest.
pub proof fn standing_at(hay: Seq<char>, needle: Seq<char>, at: int)
    ensures
        crate::text::occurs_at(hay, needle, at) <==> holds_behind(hay, needle, at),
{
    if crate::text::occurs_at(hay, needle, at) {
        let front = hay.take(at);
        let back = hay.skip(at + needle.len());
        assert(hay == front + needle + back);
    }
    if holds_behind(hay, needle, at) {
        let (front, back) = choose|front: Seq<char>, back: Seq<char>|
            front.len() == at && hay == #[trigger] (front + needle + back);
        assert(hay.subrange(at, at + needle.len()) == needle);
    }
}

/// A text is found in another exactly if the other is made of something, the text, and
/// something.
pub proof fn standing_somewhere(hay: Seq<char>, needle: Seq<char>)
    ensures
        crate::text::occurs(hay, needle) <==> holds(hay, needle),
{
    if crate::text::occurs(hay, needle) {
        let at = choose|at: int| crate::text::occurs_at(hay, needle, at);
        standing_at(hay, needle, at);
    }
    if holds(hay, needle) {
        let (front, back) = choose|front: Seq<char>, back: Seq<char>|
            hay == #[trigger] (front + needle + back);
        assert(holds_behind(hay, needle, front.len() as int));
        standing_at(hay, needle, front.len() as int);
    }
}

/// The first place of a text from a position on is one where it stands, and before it there
/// is none; no place is found exactly where there is none.
pub proof fn first_place_is_first(hay: Seq<char>, needle: Seq<char>, from: int)
    requires
        0 <= from,
    ensures
        match crate::text::next_occurrence(hay, needle, from) {
            Some(found) => from <= found && holds_behind(hay, needle, found) && forall|at: int|
                from <= at < found ==> !#[trigger] holds_behind(hay, needle, at),
            None => forall|at: int| from <= at ==> !#[trigger] holds_behind(hay, needle, at),
        },
{
    crate::text::occurrence_is_sound(hay, needle, from);
    crate::text::occurrence_is_first(hay, needle, from);
    assert forall|at: int| holds_behind(hay, needle, at) == crate::text::occurs_at(
        hay,
        needle,
        at,
    ) by {
        standing_at(hay, needle, at);
    }
    if let Some(found) = crate::text::next_occurrence(hay, needle, from) {
        assert forall|at: int| from <= at < found implies !#[trigger] holds_behind(
            hay,
            needle,
            at,
        ) by {
            assert(!crate::text::occurs_at(hay, needle, at));
        }
    } else {
        assert forall|at: int| from <= at implies !#[trigger] holds_behind(hay, needle, at) by {
            assert(!crate::text::occurs_at(hay, needle, at));
        }
    }
}

/// A text begins with another exactly if it is the other and a rest.
pub proof fn beginning(text: Seq<char>, front: Seq<char>)
    ensures
        crate::text::begins(text, front) <==> starts(text, front),
{
    if crate::text::begins(text, front) {
        assert(text == front + text.skip(front.len() as int));
    }
    if starts(text, front) {
        let back = choose|back: Seq<char>| text == #[trigger] (front + back);
        assert(text.take(front.len() as int) == front);
    }
}

/// A text ends with another exactly if it is something and the other.
pub proof fn ending(text: Seq<char>, back: Seq<char>)
    ensures
        crate::text::ends(text, back) <==> finishes(text, back),
{
    if crate::text::ends(text, back) {
        assert(text == text.take(text.len() - back.len()) + back);
    }
    if finishes(text, back) {
        let front = choose|front: Seq<char>| text == #[trigger] (front + back);
        assert(text.skip(text.len() - back.len()) == back);
    }
}

/// Two texts differ at most in case exactly if they are equally long and each character is
/// the same, or the same ASCII letter in the other case.
pub proof fn case_only(a: Seq<char>, b: Seq<char>)
    ensures
        crate::text::same_but_case(a, b) <==> alike(a, b),
{
    let x = crate::text::ascii_lower(a);
    let y = crate::text::ascii_lower(b);
    if x == y {
        assert(x.len() == y.len());
        assert forall|i: int| 0 <= i < a.len() implies alike_chars(#[trigger] a[i], b[i]) by {
            assert(x[i] == y[i]);
            lower_chars(a[i], b[i]);
        }
    }
    if alike(a, b) {
        assert forall|i: int| 0 <= i < x.len() implies x[i] == y[i] by {
            assert(alike_chars(a[i], b[i]));
            lower_chars(a[i], b[i]);
        }
        assert(x =~= y);
    }
}

proof fn lower_chars(a: char, b: char)
    ensures
        crate::text::ascii_lower_char(a) == crate::text::ascii_lower_char(b) <==> alike_chars(a, b),
{
}

proof fn front_is_blank(text: Seq<char>) -> (front: Seq<char>)
    ensures
        text == front + crate::text::trimmed_front(text),
        blank(front),
        crate::text::trimmed_front(text).len() > 0 ==> !crate::text::is_white(
            crate::text::trimmed_front(text)[0],
        ),
    decreases text.len(),
{
    if text.len() > 0 && crate::text::is_white(text[0]) {
        let rest = front_is_blank(text.drop_first());
        let front = seq![text[0]] + rest;
        assert(text == seq![text[0]] + text.drop_first());
        assert(text == front + crate::text::trimmed_front(text));
        front
    } else {
        assert(text == Seq::<char>::empty() + text);
        Seq::empty()
    }
}

proof fn back_is_blank(text: Seq<char>) -> (back: Seq<char>)
    ensures
        text == crate::text::trimmed_back(text) + back,
        blank(back),
        crate::text::trimmed_back(text).len() > 0 ==> !crate::text::is_white(
            crate::text::trimmed_back(text).last(),
        ),
    decreases text.len(),
{
    if text.len() > 0 && crate::text::is_white(text.last()) {
        let rest = back_is_blank(text.drop_last());
        let back = rest.push(text.last());
        assert(text == text.drop_last().push(text.last()));
        assert(text == crate::text::trimmed_back(text) + back);
        back
    } else {
        assert(text == text + Seq::<char>::empty());
        Seq::empty()
    }
}

/// `middle` is `text` without white space in front and behind, and neither starts nor ends
/// with white space itself.
pub open spec fn is_core(text: Seq<char>, middle: Seq<char>) -> bool {
    &&& exists|front: Seq<char>, back: Seq<char>|
        text == #[trigger] (front + middle + back) && blank(front) && blank(back)
    &&& middle.len() > 0 ==> !crate::text::is_white(middle[0]) && !crate::text::is_white(
        middle.last(),
    )
}

/// Trimming takes white space away at both ends, all of it and nothing else, and there is
/// one way only to do so.
pub proof fn trimming(text: Seq<char>, middle: Seq<char>)
    ensures
        is_core(text, middle) <==> middle == crate::text::trimmed(text),
{
    let front = front_is_blank(text);
    let rest = crate::text::trimmed_front(text);
    let back = back_is_blank(rest);
    let core = crate::text::trimmed(text);
    assert(text == front + core + back);
    if core.len() > 0 {
        assert(core[0] == rest[0]);
    }
    assert(is_core(text, core));
    if is_core(text, middle) {
        let (a, b) = choose|a: Seq<char>, b: Seq<char>|
            text == #[trigger] (a + middle + b) && blank(a) && blank(b);
        if middle.len() > 0 {
            assert(text[a.len() as int] == middle[0]);
            assert(text[a.len() + middle.len() - 1] == middle.last());
            if core.len() == 0 {
                if a.len() < front.len() {
                    assert(text[a.len() as int] == front[a.len() as int]);
                } else {
                    assert(text[a.len() as int] == back[a.len() - front.len()]);
                }
            } else {
                assert(text[front.len() as int] == core[0]);
                assert(text[front.len() + core.len() - 1] == core.last());
                if a.len() < front.len() {
                    assert(front[a.len() as int] == middle[0]);
                }
                if front.len() < a.len() {
                    assert(a[front.len() as int] == core[0]);
                }
                if b.len() < back.len() {
                    let k = a.len() + middle.len() - 1;
                    assert(back[k - front.len() - core.len()] == middle.last());
                }
                if back.len() < b.len() {
                    let k = front.len() + core.len() - 1;
                    assert(b[k - a.len() - middle.len()] == core.last());
                }
                assert(a.len() == front.len() && b.len() == back.len());
                let n = a.len() as int;
                assert(middle == text.subrange(n, n + middle.len()));
                assert(core == text.subrange(n, n + core.len()));
            }
        } else if core.len() > 0 {
            assert(text[front.len() as int] == core[0]);
            if front.len() < a.len() {
                assert(a[front.len() as int] == core[0]);
            } else {
                assert(b[front.len() - a.len()] == core[0]);
            }
        } else {
            assert(middle =~= core);
        }
    }
}

proof fn one_run(text: Seq<char>, separates: spec_fn(char) -> bool)
    requires
        text.len() > 0,
        forall|i: int| 0 <= i < text.len() ==> !separates(#[trigger] text[i]),
    ensures
        crate::text::fields(text, separates) == seq![text],
    decreases text.len(),
{
    reveal_with_fuel(crate::text::fields, 2);
    assert(!separates(text[text.len() - 1]));
    if text.len() > 1 {
        let front = text.drop_last();
        assert forall|i: int| 0 <= i < front.len() implies !separates(#[trigger] front[i]) by {
            assert(!separates(text[i]));
        }
        one_run(front, separates);
        assert(!separates(text[text.len() - 2]));
        assert(seq![front].drop_last() == Seq::<Seq<char>>::empty());
        assert(front.push(text.last()) == text);
        assert(crate::text::fields(text, separates) == Seq::<Seq<char>>::empty().push(text));
    } else {
        assert(text.drop_last() == Seq::<char>::empty());
        assert(text == seq![text.last()]);
        assert(crate::text::fields(text, separates) == Seq::<Seq<char>>::empty().push(text));
    }
}

/// A text without white space is one word, nothing has no words, and white space parts
/// words: the words of two texts with white space between them are those of the one and
/// then those of the other.
pub proof fn words_of_a_text(a: Seq<char>, c: char, b: Seq<char>)
    ensures
        crate::text::words(Seq::empty()) == Seq::<Seq<char>>::empty(),
        a.len() > 0 && (forall|i: int|
            0 <= i < a.len() ==> !crate::text::is_white(#[trigger] a[i])) ==> crate::text::words(a)
            == seq![a],
        crate::text::is_white(c) ==> crate::text::words(a + seq![c] + b) == crate::text::words(a)
            + crate::text::words(b),
{
    let white = |c: char| crate::text::is_white(c);
    if a.len() > 0 && (forall|i: int|
        0 <= i < a.len() ==> !crate::text::is_white(#[trigger] a[i])) {
        one_run(a, white);
    }
    if crate::text::is_white(c) {
        crate::text::runs_add_up(a, c, b, white);
    }
}

/// A text without line feeds is one line, nothing has no lines, and line feeds part lines.
pub proof fn lines_of_a_text(a: Seq<char>, b: Seq<char>)
    ensures
        crate::text::full_lines(Seq::empty()) == Seq::<Seq<char>>::empty(),
        a.len() > 0 && (forall|i: int| 0 <= i < a.len() ==> #[trigger] a[i] != '\n')
            ==> crate::text::full_lines(a) == seq![a],
        crate::text::full_lines(a + seq!['\n'] + b) == crate::text::full_lines(a)
            + crate::text::full_lines(b),
{
    let feed = |c: char| c == '\n';
    if a.len() > 0 && (forall|i: int| 0 <= i < a.len() ==> #[trigger] a[i] != '\n') {
        one_run(a, feed);
    }
    crate::text::runs_add_up(a, '\n', b, feed);
}

/// Runs of characters that are no separators: one such run is itself, nothing has none, and
/// a separator parts runs.
pub proof fn runs_of_a_text(
    a: Seq<char>,
    c: char,
    b: Seq<char>,
    separates: spec_fn(char) -> bool,
)
    ensures
        crate::text::fields(Seq::empty(), separates) == Seq::<Seq<char>>::empty(),
        a.len() > 0 && (forall|i: int| 0 <= i < a.len() ==> !separates(#[trigger] a[i]))
            ==> crate::text::fields(a, separates) == seq![a],
        separates(c) ==> crate::text::fields(a + seq![c] + b, separates) == crate::text::fields(
            a,
            separates,
        ) + crate::text::fields(b, separates),
{
    if a.len() > 0 && (forall|i: int| 0 <= i < a.len() ==> !separates(#[trigger] a[i])) {
        one_run(a, separates);
    }
    if separates(c) {
        crate::text::runs_add_up(a, c, b, separates);
    }
}

proof fn count_behind(front: Seq<char>, hay: Seq<char>, needle: Seq<char>, from: int)
    requires
        0 <= from,
        needle.len() > 0,
    ensures
        crate::text::match_count(front + hay, needle, front.len() + from)
            == crate::text::match_count(hay, needle, from),
    decreases hay.len() + 1 - from,
{
    let whole = front + hay;
    if from <= hay.len() - needle.len() {
        let at = front.len() + from;
        assert(whole.subrange(at, at + needle.len()) == hay.subrange(from, from + needle.len()));
        if crate::text::occurs_at(hay, needle, from) {
            count_behind(front, hay, needle, from + needle.len());
        } else {
            count_behind(front, hay, needle, from + 1);
        }
    }
}

proof fn count_from(hay: Seq<char>, needle: Seq<char>, from: int, at: int)
    requires
        0 <= from <= at,
        forall|j: int| from <= j < at ==> !#[trigger] crate::text::occurs_at(hay, needle, j),
    ensures
        crate::text::match_count(hay, needle, from) == crate::text::match_count(hay, needle, at),
    decreases at - from,
{
    if from < at {
        assert(!crate::text::occurs_at(hay, needle, from));
        count_from(hay, needle, from + 1, at);
    }
}

/// How often a text stands in another: not at all where it does not stand in it; else once
/// for its first place, and then as often as in what comes behind that.
pub proof fn counting_matches(front: Seq<char>, needle: Seq<char>, back: Seq<char>)
    requires
        needle.len() > 0,
    ensures
        !holds(front, needle) ==> crate::text::match_count(front, needle, 0) == 0,
        (forall|at: int|
            0 <= at < front.len() ==> !#[trigger] holds_behind(front + needle + back, needle, at))
            ==> crate::text::match_count(front + needle + back, needle, 0) == 1
            + crate::text::match_count(back, needle, 0),
{
    standing_somewhere(front, needle);
    crate::text::match_count_is_positive(front, needle);
    let whole = front + needle + back;
    if forall|at: int|
        0 <= at < front.len() ==> !#[trigger] holds_behind(whole, needle, at) {
        let n = front.len() as int;
        assert forall|j: int| 0 <= j < n implies !#[trigger] crate::text::occurs_at(
            whole,
            needle,
            j,
        ) by {
            standing_at(whole, needle, j);
            assert(!holds_behind(whole, needle, j));
        }
        count_from(whole, needle, 0, n);
        assert(holds_behind(whole, needle, n));
        standing_at(whole, needle, n);
        count_behind(front + needle, back, needle, 0);
    }
}

/// The first place of a character from a position on: the character stands there and not
/// before; the end is given exactly where it does not stand at all.
pub proof fn first_place_of_a_char(text: Seq<char>, c: char, from: int)
    requires
        0 <= from <= text.len(),
    ensures
        from <= crate::text::next_at(text, c, from) <= text.len(),
        crate::text::next_at(text, c, from) < text.len() ==> text[crate::text::next_at(
            text,
            c,
            from,
        )] == c,
        forall|i: int|
            from <= i < crate::text::next_at(text, c, from) ==> #[trigger] text[i] != c,
    decreases text.len() - from,
{
    if from < text.len() && text[from] != c {
        first_place_of_a_char(text, c, from + 1);
    }
}

/// How often a character stands in a text: as often as in its multiset of characters.
pub proof fn counting_a_char(text: Seq<char>, c: char)
    ensures
        crate::text::char_count(text, c) == text.to_multiset().count(c),
    decreases text.len(),
{
    text.to_multiset_ensures();
    if text.len() > 0 {
        counting_a_char(text.drop_last(), c);
        assert(text.drop_last().push(text.last()) == text);
        text.drop_last().to_multiset_ensures();
    }
}

proof fn digits_grow(digits: Seq<char>, c: char)
    ensures
        crate::text::digits_value(digits.push(c)) == crate::text::digits_value(digits) * 10 + (
        c as nat - '0' as nat) as nat,
{
    assert(digits.push(c).drop_last() == digits);
}

/// What a number is written as: a digit stands for itself, a further digit makes ten times
/// as much and the digit, a plus sign in front changes nothing, and what has no digits,
/// anything but digits, or more than 64 bits hold is no number.
pub proof fn reading_numbers(digits: Seq<char>, c: char)
    ensures
        crate::text::number(Seq::empty()) is None,
        crate::text::number(seq!['+']) is None,
        '0' <= c <= '9' ==> crate::text::number(seq![c]) == Some((c as int - '0' as int) as u64),
        digits.len() > 0 && '0' <= c <= '9' ==> crate::text::number(digits.push(c)) == match
            crate::text::number(digits) {
            Some(value) => if value * 10 + (c as int - '0' as int) <= u64::MAX {
                Some((value * 10 + (c as int - '0' as int)) as u64)
            } else {
                None
            },
            None => if digits == seq!['+'] {
                Some((c as int - '0' as int) as u64)
            } else {
                None
            },
        },
        digits.len() > 0 && !('0' <= c <= '9') ==> crate::text::number(digits.push(c)) is None,
        !('0' <= c <= '9') ==> crate::text::number(seq![c]) is None,
{
    reveal_with_fuel(crate::text::digits_value, 2);
    let one = seq![c];
    assert(one.drop_last() == Seq::<char>::empty());
    assert(one == Seq::<char>::empty().push(c));
    assert(seq!['+'].drop_first() == Seq::<char>::empty());
    if '0' <= c <= '9' {
        assert(crate::text::without_plus(one) == one);
        assert(one.last() == c);
    }
    if digits.len() > 0 {
        let more = digits.push(c);
        let rest = crate::text::without_plus(digits);
        assert(crate::text::without_plus(more) == rest.push(c));
        digits_grow(rest, c);
        if '0' <= c <= '9' {
            if crate::text::all_digits(rest) {
                assert(crate::text::all_digits(rest.push(c)));
            } else {
                let i = choose|i: int| 0 <= i < rest.len() && !('0' <= #[trigger] rest[i] <= '9');
                assert(rest.push(c)[i] == rest[i]);
            }
            if rest.len() == 0 {
                assert(digits =~= seq!['+']);
                assert(rest =~= Seq::<char>::empty());
            }
        } else {
            assert(rest.push(c)[rest.len() as int] == c);
        }
    } 
    if !('0' <= c <= '9') {
        if c == '+' {
            assert(one =~= seq!['+']);
        } else {
            assert(crate::text::without_plus(one) == one);
            assert(one[0] == c);
        }
    }
}

} // verus!
