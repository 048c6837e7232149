//! Queries: names and values, written as text and read again.
//!
//! A query is written as `name=value`, with `&` between the pairs. A character that would
//! be read as something else is written as a percent sign and two hexadecimal digits.
use vstd::prelude::*;

use crate::text::append_chars;
use crate::text::chars_of;
use crate::text::text_of;

verus! {

/// How a character is written in the name or the value of a pair.
pub open spec fn escaped_char(c: char, in_name: bool) -> Seq<char> {
    if c == '%' {
        seq!['%', '2', '5']
    } else if c == '&' {
        seq!['%', '2', '6']
    } else if c == '+' {
        seq!['%', '2', 'B']
    } else if c == '=' && in_name {
        seq!['%', '3', 'D']
    } else if c == '\t' {
        seq!['%', '0', '9']
    } else if c == '\n' {
        seq!['%', '0', 'A']
    } else if c == '\r' {
        seq!['%', '0', 'D']
    } else {
        seq![c]
    }
}

/// How a name or a value is written.
pub open spec fn escaped(text: Seq<char>, in_name: bool) -> Seq<char>
    decreases text.len(),
{
    if text.len() == 0 {
        Seq::empty()
    } else {
        escaped_char(text[0], in_name) + escaped(text.drop_first(), in_name)
    }
}

/// The number that a hexadecimal digit stands for.
pub open spec fn hex_value(c: char) -> Option<int> {
    if '0' <= c <= '9' {
        Some(c as int - '0' as int)
    } else if 'A' <= c <= 'F' {
        Some(c as int - 'A' as int + 10)
    } else if 'a' <= c <= 'f' {
        Some(c as int - 'a' as int + 10)
    } else {
        None
    }
}

/// At the beginning of `text` stands a percent sign with the two digits of an ASCII
/// character.
pub open spec fn begins_with_escape(text: Seq<char>) -> bool {
    &&& text.len() >= 3
    &&& text[0] == '%'
    &&& hex_value(text[1]) matches Some(high) && high < 8
    &&& hex_value(text[2]) is Some
}

/// What a written name or value is read as: an escape as the character it stands for, and
/// a plus sign as a space.
pub open spec fn unescaped(text: Seq<char>) -> Seq<char>
    decreases text.len(),
{
    if text.len() == 0 {
        Seq::empty()
    } else if begins_with_escape(text) {
        seq![(hex_value(text[1])->0 * 16 + hex_value(text[2])->0) as char] + unescaped(
            text.skip(3),
        )
    } else if text[0] == '+' {
        seq![' '] + unescaped(text.drop_first())
    } else {
        seq![text[0]] + unescaped(text.drop_first())
    }
}

/// Every percent sign begins the escape of an ASCII character, and no tab and no line
/// break stands in `text`.
pub open spec fn well_escaped(text: Seq<char>) -> bool
    decreases text.len(),
{
    if text.len() == 0 {
        true
    } else if text[0] == '%' {
        begins_with_escape(text) && well_escaped(text.skip(3))
    } else {
        text[0] != '\t' && text[0] != '\n' && text[0] != '\r' && well_escaped(text.drop_first())
    }
}

/// A pair of a name and a value.
pub type PairModel = (Seq<char>, Seq<char>);

/// The pair as it is written in a query.
pub open spec fn pair_text(pair: PairModel) -> Seq<char> {
    escaped(pair.0, true) + "="@ + escaped(pair.1, false)
}

/// The pairs written as a query: `name=value`, with `&` between them.
pub open spec fn query_text(pairs: Seq<PairModel>) -> Seq<char>
    decreases pairs.len(),
{
    if pairs.len() == 0 {
        Seq::empty()
    } else if pairs.len() == 1 {
        pair_text(pairs.last())
    } else {
        query_text(pairs.drop_last()) + "&"@ + pair_text(pairs.last())
    }
}

/// What a part of a query is read as: a name up to the first `=`, and a value behind it.
pub open spec fn read_pair(part: Seq<char>) -> PairModel {
    let at = crate::text::next_at(part, '=', 0);
    (
        unescaped(part.take(at)),
        if at < part.len() {
            unescaped(part.skip(at + 1))
        } else {
            Seq::empty()
        },
    )
}

/// The parts of a query between its `&` signs that are not empty.
pub open spec fn query_parts(query: Seq<char>) -> Seq<Seq<char>> {
    crate::text::fields(query, |c: char| c == '&')
}

/// What a query is read as.
pub open spec fn read_query(query: Seq<char>) -> Seq<PairModel> {
    Seq::new(query_parts(query).len(), |i: int| read_pair(query_parts(query)[i]))
}

fn push_escaped(out: &mut Vec<char>, c: char, in_name: bool)
    ensures
        final(out)@ == old(out)@ + escaped_char(c, in_name),
{
    if c == '%' {
        append_chars(out, &['%', '2', '5']);
    } else if c == '&' {
        append_chars(out, &['%', '2', '6']);
    } else if c == '+' {
        append_chars(out, &['%', '2', 'B']);
    } else if c == '=' && in_name {
        append_chars(out, &['%', '3', 'D']);
    } else if c == '\t' {
        append_chars(out, &['%', '0', '9']);
    } else if c == '\n' {
        append_chars(out, &['%', '0', 'A']);
    } else if c == '\r' {
        append_chars(out, &['%', '0', 'D']);
    } else {
        out.push(c);
    }
    assert(out@ == old(out)@ + escaped_char(c, in_name));
}

/// A name or a value as it is written in a query.
pub fn escape(text: &str, in_name: bool) -> (written: String)
    ensures
        written@ == escaped(text@, in_name),
{
    let chars = chars_of(text);
    let mut out: Vec<char> = Vec::new();
    assert(text@.skip(0) == text@);
    for i in 0..chars.len()
        invariant
            chars@ == text@,
            out@ + escaped(text@.skip(i as int), in_name) == escaped(text@, in_name),
    {
        let ghost before = out@;
        push_escaped(&mut out, chars[i], in_name);
        assert(text@.skip(i as int).drop_first() == text@.skip(i + 1));
        assert(out@ + escaped(text@.skip(i + 1), in_name) == before + escaped(
            text@.skip(i as int),
            in_name,
        ));
    }
    assert(text@.skip(text@.len() as int) == Seq::<char>::empty());
    text_of(out.as_slice())
}

/// What has been written is read as it was.
pub proof fn escapes_are_read_back(text: Seq<char>, in_name: bool)
    ensures
        unescaped(escaped(text, in_name)) == text,
    decreases text.len(),
{
    if text.len() > 0 {
        let rest = escaped(text.drop_first(), in_name);
        let all = escaped(text, in_name);
        escapes_are_read_back(text.drop_first(), in_name);
        if escaped_char(text[0], in_name).len() == 3 {
            assert(all.skip(3) == rest);
            assert(begins_with_escape(all));
        } else {
            assert(all.drop_first() == rest);
        }
        assert(unescaped(all) == seq![text[0]] + text.drop_first());
        assert(seq![text[0]] + text.drop_first() == text);
    }
}

proof fn escapes_hold_no_sign(text: Seq<char>, in_name: bool)
    ensures
        forall|i: int|
            0 <= i < escaped(text, in_name).len() ==> #[trigger] escaped(text, in_name)[i] != '&'
                && (in_name ==> escaped(text, in_name)[i] != '='),
        well_escaped(escaped(text, in_name)),
    decreases text.len(),
{
    if text.len() > 0 {
        let first = escaped_char(text[0], in_name);
        let rest = escaped(text.drop_first(), in_name);
        let all = escaped(text, in_name);
        escapes_hold_no_sign(text.drop_first(), in_name);
        assert forall|i: int| 0 <= i < all.len() implies #[trigger] all[i] != '&' && (in_name
            ==> all[i] != '=') by {
            if i >= first.len() {
                assert(all[i] == rest[i - first.len()]);
            } else {
                assert(all[i] == first[i]);
            }
        }
        if first.len() == 3 {
            assert(all.skip(3) == rest);
        } else {
            assert(all.drop_first() == rest);
        }
    }
}

proof fn well_escaped_texts_add_up(a: Seq<char>, b: Seq<char>)
    requires
        well_escaped(a),
        well_escaped(b),
    ensures
        well_escaped(a + b),
    decreases a.len(),
{
    if a.len() == 0 {
        assert(a + b == b);
    } else if a[0] == '%' {
        well_escaped_texts_add_up(a.skip(3), b);
        assert((a + b).skip(3) == a.skip(3) + b);
    } else {
        well_escaped_texts_add_up(a.drop_first(), b);
        assert((a + b).drop_first() == a.drop_first() + b);
    }
}

proof fn first_sign_is_found(front: Seq<char>, back: Seq<char>, from: int)
    requires
        0 <= from <= front.len(),
        forall|i: int| 0 <= i < front.len() ==> #[trigger] front[i] != '=',
    ensures
        crate::text::next_at(front + seq!['='] + back, '=', from) == front.len(),
    decreases front.len() - from,
{
    let text = front + seq!['='] + back;
    if from < front.len() {
        assert(text[from] == front[from]);
        first_sign_is_found(front, back, from + 1);
    } else {
        assert(text[from] == '=');
    }
}

proof fn pair_is_read_back(pair: PairModel)
    ensures
        read_pair(pair_text(pair)) == pair,
        well_escaped(pair_text(pair)),
        pair_text(pair).len() > 0,
        forall|i: int|
            0 <= i < pair_text(pair).len() ==> #[trigger] pair_text(pair)[i] != '&',
{
    reveal_strlit("=");
    let name = escaped(pair.0, true);
    let value = escaped(pair.1, false);
    let part = pair_text(pair);
    escapes_hold_no_sign(pair.0, true);
    escapes_hold_no_sign(pair.1, false);
    assert("="@ == seq!['=']);
    assert(well_escaped(seq!['='])) by {
        reveal_with_fuel(well_escaped, 2);
        assert(seq!['='].drop_first() == Seq::<char>::empty());
    }
    well_escaped_texts_add_up(name, seq!['=']);
    well_escaped_texts_add_up(name + seq!['='], value);
    first_sign_is_found(name, value, 0);
    assert(part.take(name.len() as int) == name);
    assert(part.skip(name.len() + 1int) == value);
    escapes_are_read_back(pair.0, true);
    escapes_are_read_back(pair.1, false);
    assert forall|i: int| 0 <= i < part.len() implies #[trigger] part[i] != '&' by {
        if i < name.len() {
            assert(part[i] == name[i]);
        } else if i > name.len() {
            assert(part[i] == value[i - name.len() - 1]);
        }
    }
}

proof fn part_is_added(front: Seq<char>, part: Seq<char>, separates: spec_fn(char) -> bool)
    requires
        part.len() > 0,
        forall|i: int| 0 <= i < part.len() ==> !separates(#[trigger] part[i]),
        front.len() > 0 ==> separates(front.last()),
    ensures
        crate::text::fields(front + part, separates) == crate::text::fields(front, separates).push(
            part,
        ),
    decreases part.len(),
{
    let text = front + part;
    assert(text.last() == part.last());
    if part.len() == 1 {
        assert(text.drop_last() == front);
        assert(part == seq![part.last()]);
        if text.len() > 1 {
            assert(text[text.len() - 2] == front.last());
        }
    } else {
        let less = part.drop_last();
        assert(text.drop_last() == front + less);
        assert(text[text.len() - 2] == part[part.len() - 2]);
        part_is_added(front, less, separates);
        let before = crate::text::fields(front, separates);
        assert(before.push(less).drop_last() == before);
        assert(less.push(part.last()) == part);
    }
}

proof fn query_is_split_again(pairs: Seq<PairModel>)
    ensures
        query_parts(query_text(pairs)) == Seq::new(pairs.len(), |i: int| pair_text(pairs[i])),
        well_escaped(query_text(pairs)),
    decreases pairs.len(),
{
    reveal_strlit("&");
    if pairs.len() > 0 {
        let front = pairs.drop_last();
        let part = pair_text(pairs.last());
        let separates = |c: char| c == '&';
        query_is_split_again(front);
        pair_is_read_back(pairs.last());
        if pairs.len() == 1 {
            part_is_added(Seq::empty(), part, separates);
            assert(Seq::<char>::empty() + part == part);
        } else {
            let before = query_text(front);
            let lead = before + "&"@;
            assert("&"@ == seq!['&']);
            assert(lead.drop_last() == before);
            assert(lead.last() == '&');
            part_is_added(lead, part, separates);
            assert(well_escaped(seq!['&'])) by {
        reveal_with_fuel(well_escaped, 2);
                assert(seq!['&'].drop_first() == Seq::<char>::empty());
            }
            well_escaped_texts_add_up(before, seq!['&']);
            well_escaped_texts_add_up(lead, part);
        }
        assert(query_parts(query_text(pairs)) == query_parts(query_text(front)).push(part));
    }
}

/// A query is read as the pairs of which it was written, whatever their names and values
/// hold.
pub proof fn queries_are_read_back(pairs: Seq<PairModel>)
    ensures
        read_query(query_text(pairs)) == pairs,
        well_escaped(query_text(pairs)),
{
    query_is_split_again(pairs);
    assert forall|i: int| 0 <= i < pairs.len() implies #[trigger] read_query(query_text(pairs))[i]
        == pairs[i] by {
        pair_is_read_back(pairs[i]);
    }
}

} // verus!
