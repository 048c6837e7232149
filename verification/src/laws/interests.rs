//! Promises about interests: which words count, by how much, and what they are worth.
use vstd::prelude::*;
use vstd::utf8::encode_utf8;

use crate::interest::InterestModel;
use crate::laws::text::starts;

verus! {

/// The words that do not count are exactly these.
pub proof fn stopwords_are_these(word: Seq<char>)
    ensures
        crate::interest::stopword(word) <==> (
            word == "the"@
            || word == "and"@
            || word == "for"@
            || word == "are"@
            || word == "but"@
            || word == "not"@
            || word == "you"@
            || word == "all"@
            || word == "can"@
            || word == "had"@
            || word == "her"@
            || word == "was"@
            || word == "one"@
            || word == "our"@
            || word == "out"@
            || word == "day"@
            || word == "get"@
            || word == "has"@
            || word == "him"@
            || word == "his"@
            || word == "how"@
            || word == "its"@
            || word == "let"@
            || word == "may"@
            || word == "new"@
            || word == "now"@
            || word == "old"@
            || word == "see"@
            || word == "two"@
            || word == "way"@
            || word == "who"@
            || word == "boy"@
            || word == "did"@
            || word == "does"@
            || word == "don"@
            || word == "got"@
            || word == "put"@
            || word == "say"@
            || word == "she"@
            || word == "too"@
            || word == "use"@
            || word == "from"@
            || word == "have"@
            || word == "that"@
            || word == "this"@
            || word == "with"@
            || word == "will"@
            || word == "been"@
            || word == "into"@
            || word == "just"@
            || word == "like"@
            || word == "more"@
            || word == "over"@
            || word == "such"@
            || word == "than"@
            || word == "them"@
            || word == "then"@
            || word == "they"@
            || word == "want"@
            || word == "were"@
            || word == "what"@
            || word == "when"@
            || word == "your"@
        ),
{
    let list = crate::interest::stopwords();
    assert(list[0] == "the"@);
    assert(list[1] == "and"@);
    assert(list[2] == "for"@);
    assert(list[3] == "are"@);
    assert(list[4] == "but"@);
    assert(list[5] == "not"@);
    assert(list[6] == "you"@);
    assert(list[7] == "all"@);
    assert(list[8] == "can"@);
    assert(list[9] == "had"@);
    assert(list[10] == "her"@);
    assert(list[11] == "was"@);
    assert(list[12] == "one"@);
    assert(list[13] == "our"@);
    assert(list[14] == "out"@);
    assert(list[15] == "day"@);
    assert(list[16] == "get"@);
    assert(list[17] == "has"@);
    assert(list[18] == "him"@);
    assert(list[19] == "his"@);
    assert(list[20] == "how"@);
    assert(list[21] == "its"@);
    assert(list[22] == "let"@);
    assert(list[23] == "may"@);
    assert(list[24] == "new"@);
    assert(list[25] == "now"@);
    assert(list[26] == "old"@);
    assert(list[27] == "see"@);
    assert(list[28] == "two"@);
    assert(list[29] == "way"@);
    assert(list[30] == "who"@);
    assert(list[31] == "boy"@);
    assert(list[32] == "did"@);
    assert(list[33] == "does"@);
    assert(list[34] == "don"@);
    assert(list[35] == "got"@);
    assert(list[36] == "put"@);
    assert(list[37] == "say"@);
    assert(list[38] == "she"@);
    assert(list[39] == "too"@);
    assert(list[40] == "use"@);
    assert(list[41] == "from"@);
    assert(list[42] == "have"@);
    assert(list[43] == "that"@);
    assert(list[44] == "this"@);
    assert(list[45] == "with"@);
    assert(list[46] == "will"@);
    assert(list[47] == "been"@);
    assert(list[48] == "into"@);
    assert(list[49] == "just"@);
    assert(list[50] == "like"@);
    assert(list[51] == "more"@);
    assert(list[52] == "over"@);
    assert(list[53] == "such"@);
    assert(list[54] == "than"@);
    assert(list[55] == "them"@);
    assert(list[56] == "then"@);
    assert(list[57] == "they"@);
    assert(list[58] == "want"@);
    assert(list[59] == "were"@);
    assert(list[60] == "what"@);
    assert(list[61] == "when"@);
    assert(list[62] == "your"@);
    if list.contains(word) {
        let i = choose|i: int| 0 <= i < list.len() && list[i] == word;
        assert(list[i] == word);
    }
}

/// What a run of letters and digits counts as: itself in lower case, if it is longer than
/// three bytes and in lower case no stopword; else nothing.
pub open spec fn counts_as(run: Seq<char>) -> Option<Seq<char>> {
    if encode_utf8(run).len() > 3 && !crate::interest::stopword(crate::text::lowercase(run)) {
        Some(crate::text::lowercase(run))
    } else {
        None
    }
}

proof fn telling_runs(runs: Seq<Seq<char>>, counts: spec_fn(Seq<char>) -> Option<Seq<char>>)
    requires
        forall|run: Seq<char>| #[trigger] counts(run) == counts_as(run),
    ensures
        crate::interest::telling(runs) == runs.filter_map(counts),
    decreases runs.len(),
{
    if runs.len() > 0 {
        telling_runs(runs.drop_last(), counts);
        assert(counts(runs.last()) == counts_as(runs.last()));
    }
}

/// The words of a text that count are its longest runs of letters and digits, in their order
/// and each as often as it stands there, in lower case, without those of at most three bytes
/// and without stopwords.
pub proof fn words_that_count(text: Seq<char>)
    ensures
        crate::interest::tokens(text) == crate::text::fields(
            text,
            |c: char| !crate::text::alphanumeric(c),
        ).filter_map(|run: Seq<char>| counts_as(run)),
{
    telling_runs(
        crate::text::fields(text, |c: char| !crate::text::alphanumeric(c)),
        |run: Seq<char>| counts_as(run),
    );
}

/// A domain is a host without `www.` in front, however often that stands there.
pub proof fn hosts_lose_www(host: Seq<char>, url: Seq<char>)
    ensures
        !starts(host, "www."@) ==> crate::interest::without_www(host) == host,
        crate::interest::without_www("www."@ + host) == crate::interest::without_www(host),
        crate::interest::domain_of(url) == match crate::web::url_host(url) {
            Some(found) => Some(crate::interest::without_www(found)),
            None => None,
        },
{
    reveal_strlit("www.");
    crate::laws::text::beginning(host, "www."@);
    let longer = "www."@ + host;
    assert(longer.take(4) == "www."@);
    assert(longer.skip(4) == host);
}

/// A number, or the greatest that 64 bits hold.
pub open spec fn up_to_max(n: int) -> int {
    if n <= 0xffff_ffff_ffff_ffff {
        n
    } else {
        0xffff_ffff_ffff_ffff
    }
}

/// What a key weighs; nought where it has no weight.
pub open spec fn weight_of(weights: Map<Seq<char>, u64>, key: Seq<char>) -> int {
    if weights.contains_key(key) {
        weights[key] as int
    } else {
        0
    }
}

proof fn times_are_counted(words: Seq<Seq<char>>, word: Seq<char>)
    ensures
        crate::interest::times(words, word) == words.to_multiset().count(word),
    decreases words.len(),
{
    words.to_multiset_ensures();
    if words.len() > 0 {
        times_are_counted(words.drop_last(), word);
        words.drop_last().to_multiset_ensures();
        assert(words.drop_last().push(words.last()) == words);
    }
}

/// A search adds a hit to each word for each time it stands among the words of the query that
/// count, and changes nothing else.
pub proof fn searches_add_a_hit(graph: InterestModel, query: Seq<char>, word: Seq<char>)
    ensures
        weight_of(graph.after_query(query).terms, word) == up_to_max(
            weight_of(graph.terms, word) + 10 * crate::interest::tokens(
                query,
            ).to_multiset().count(word),
        ),
        graph.after_query(query).terms.contains_key(word) <==> graph.terms.contains_key(word)
            || crate::interest::tokens(query).contains(word),
        graph.after_query(query).domains == graph.domains,
{
    let words = crate::interest::tokens(query);
    crate::interest::counting_adds_up(graph.terms, words, 10, word);
    times_are_counted(words, word);
    words.to_multiset_ensures();
}

/// A visit adds a hit to the domain of the page, and three tenths of one to each word for
/// each time it stands among the words of the title that count, and changes nothing else.
pub proof fn visits_add_to_domain_and_title(
    graph: InterestModel,
    url: Seq<char>,
    title: Seq<char>,
    word: Seq<char>,
    domain: Seq<char>,
)
    ensures
        weight_of(graph.after_visit(url, title).terms, word) == up_to_max(
            weight_of(graph.terms, word) + 3 * crate::interest::tokens(title).to_multiset().count(
                word,
            ),
        ),
        graph.after_visit(url, title).terms.contains_key(word) <==> graph.terms.contains_key(word)
            || crate::interest::tokens(title).contains(word),
        weight_of(graph.after_visit(url, title).domains, domain) == up_to_max(
            weight_of(graph.domains, domain) + if crate::interest::domain_of(url) == Some(domain) {
                10int
            } else {
                0
            },
        ),
        graph.after_visit(url, title).domains.contains_key(domain)
            <==> graph.domains.contains_key(domain) || crate::interest::domain_of(url) == Some(
            domain,
        ),
        graph.after_visit(url, title) == graph.after_visit_to(
            crate::interest::domain_of(url),
            title,
        ),
{
    let words = crate::interest::tokens(title);
    crate::interest::counting_adds_up(graph.terms, words, 3, word);
    times_are_counted(words, word);
    words.to_multiset_ensures();
    if let Some(found) = crate::interest::domain_of(url) {
        reveal_with_fuel(crate::interest::times, 2);
        crate::interest::counting_adds_up(graph.domains, seq![found], 10, domain);
        assert(seq![found].drop_last() == Seq::<Seq<char>>::empty());
        assert(seq![found].last() == found);
    }
}

/// The weights of the words, added up: nothing for no words, and for words and more words the
/// sum of both.
pub proof fn weights_add_up(
    weights: Map<Seq<char>, u64>,
    a: Seq<Seq<char>>,
    b: Seq<Seq<char>>,
    word: Seq<char>,
)
    ensures
        crate::interest::weight_sum(weights, Seq::empty()) == 0,
        crate::interest::weight_sum(weights, seq![word]) == weight_of(weights, word),
        crate::interest::weight_sum(weights, a + b) == crate::interest::weight_sum(weights, a)
            + crate::interest::weight_sum(weights, b),
    decreases b.len(),
{
    reveal_with_fuel(crate::interest::weight_sum, 2);
    assert(seq![word].drop_last() == Seq::<Seq<char>>::empty());
    assert(seq![word].last() == word);
    if b.len() == 0 {
        assert(a + b == a);
    } else {
        weights_add_up(weights, a, b.drop_last(), word);
        assert((a + b).drop_last() == a + b.drop_last());
        assert((a + b).last() == b.last());
    }
}

/// The points of a candidate, in twentieths: three points for each hit of its domain, two for
/// each hit of a word in its title, half a point for each hit of a word in its snippet. A hit
/// is ten tenths.
pub proof fn points_are_counted(
    graph: InterestModel,
    url: Seq<char>,
    title: Seq<char>,
    snippet: Seq<char>,
)
    ensures
        graph.points(url, title, snippet) == 6 * (match crate::interest::domain_of(url) {
            Some(domain) => weight_of(graph.domains, domain),
            None => 0,
        }) + 4 * crate::interest::weight_sum(graph.terms, crate::interest::tokens(title))
            + crate::interest::weight_sum(graph.terms, crate::interest::tokens(snippet)),
        graph.points(url, title, snippet) == graph.points_on(
            crate::interest::domain_of(url),
            title,
            snippet,
        ),
{
}

/// What 64 bits cannot hold is cut off at the greatest number that they hold.
pub proof fn scores_are_cut_off(n: int)
    requires
        n >= 0,
    ensures
        crate::interest::capped(n) == up_to_max(n),
{
}

/// The best entries of a list are as many as asked for, or all, each with its weight and once,
/// from the highest weight down; no other key weighs more than one of them.
pub proof fn best_entries_weigh_most(
    best: Seq<(String, u64)>,
    weights: Map<Seq<char>, u64>,
    n: usize,
    i: int,
    key: Seq<char>,
)
    requires
        crate::store::tops(best, weights, n),
        0 <= i < best.len(),
        weights.contains_key(key),
    ensures
        best.len() <= n,
        weights.contains_key(best[i].0@) && weights[best[i].0@] == best[i].1,
        forall|j: int|
            i < j < best.len() ==> (#[trigger] best[j]).1 <= best[i].1 && best[j].0@ != best[i].0@,
        (forall|j: int| 0 <= j < best.len() ==> (#[trigger] best[j]).0@ != key)
            ==> weights[key] <= best[i].1 && best.len() == n,
{
    let keys = crate::store::keys_of(best);
    if forall|j: int| 0 <= j < best.len() ==> (#[trigger] best[j]).0@ != key {
        assert(!keys.contains(key)) by {
            if keys.contains(key) {
                let k = choose|k: int| 0 <= k < keys.len() && keys[k] == key;
                assert(best[k].0@ == key);
            }
        }
        assert(weights[key] <= best[i].1);
        if best.len() < n {
            assert(keys.no_duplicates()) by {
                assert forall|a: int, b: int|
                    0 <= a < keys.len() && 0 <= b < keys.len() && a != b implies keys[a]
                    != keys[b] by {
                    if a < b {
                        assert(best[a].0@ != best[b].0@);
                    } else {
                        assert(best[b].0@ != best[a].0@);
                    }
                }
            }
            keys.unique_seq_to_set();
            vstd::seq_lib::seq_to_set_is_finite(keys);
            assert(keys.to_set().insert(key).subset_of(weights.dom())) by {
                assert forall|u: Seq<char>| keys.to_set().contains(u) implies weights.contains_key(
                    u,
                ) by {
                    let k = choose|k: int| 0 <= k < keys.len() && keys[k] == u;
                    assert(weights.contains_key(best[k].0@));
                }
            }
            vstd::set_lib::lemma_len_subset(keys.to_set().insert(key), weights.dom());
        }
    }
}

/// The graph that is loaded from lists gives each key the number that its list names last for
/// it.
pub proof fn the_last_number_counts(list: Seq<(String, u64)>, i: int)
    requires
        0 <= i < list.len(),
        forall|j: int| i < j < list.len() ==> (#[trigger] list[j]).0@ != list[i].0@,
    ensures
        crate::interest::entries_of(list).contains_key(list[i].0@),
        crate::interest::entries_of(list)[list[i].0@] == list[i].1,
    decreases list.len(),
{
    if i < list.len() - 1 {
        let front = list.drop_last();
        assert forall|j: int| i < j < front.len() implies (#[trigger] front[j]).0@
            != front[i].0@ by {
            assert(list[j].0@ != list[i].0@);
        }
        the_last_number_counts(front, i);
        assert(list[list.len() - 1].0@ != list[i].0@);
    }
}

/// The graph that is loaded from lists has no key that they do not name.
pub proof fn no_other_key_is_loaded(list: Seq<(String, u64)>, key: Seq<char>)
    requires
        forall|i: int| 0 <= i < list.len() ==> (#[trigger] list[i]).0@ != key,
    ensures
        !crate::interest::entries_of(list).contains_key(key),
    decreases list.len(),
{
    if list.len() > 0 {
        let front = list.drop_last();
        assert forall|i: int| 0 <= i < front.len() implies (#[trigger] front[i]).0@ != key by {
            assert(list[i].0@ != key);
        }
        no_other_key_is_loaded(front, key);
        assert(list[list.len() - 1].0@ != key);
    }
}

} // verus!
