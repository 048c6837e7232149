//! Promises about the index and the search in it.
use std::collections::hash_map::DefaultHasher;
use vstd::prelude::*;
use vstd::std_specs::hash::DefaultHasherAdditionalSpecFns;
use vstd::utf8::encode_utf8;

use crate::clock::Timestamp;
use crate::laws::text::holds;
use crate::laws::tracking::positions;
use crate::search::EntryModel;
use crate::search::HitModel;
use crate::search::ResultModel;
use crate::search::SearchHit;
use crate::search::Tier;

verus! {

/// What a search looks at.
pub open spec fn searched_text(entry: EntryModel) -> Seq<char> {
    crate::text::lowercase(entry.title) + " "@ + crate::text::lowercase(entry.snippet) + " "@
        + crate::text::lowercase(entry.domain)
}

/// A search for the query finds the page: a word of the query, in lower case, stands in its
/// title, its snippet or its domain in lower case. A page of which only links are known, and
/// no snippet, is not found; any other is, whether or not it has a snippet.
pub open spec fn is_found(entry: EntryModel, query: Seq<char>) -> bool {
    &&& !(entry.tier == Tier::Known && entry.snippet == Seq::<char>::empty())
    &&& exists|k: int|
        0 <= k < crate::text::words(query).len() && holds(
            searched_text(entry),
            crate::text::lowercase(#[trigger] crate::text::words(query)[k]),
        )
}

proof fn found_if_term_stands(entry: EntryModel, query: Seq<char>)
    ensures
        crate::search::found_by(entry, crate::search::query_terms(query)) <==> is_found(
            entry,
            query,
        ),
{
    let terms = crate::search::query_terms(query);
    let words = crate::text::words(query);
    let hay = searched_text(entry);
    assert(hay == crate::search::haystack(entry));
    assert forall|k: int| 0 <= k < words.len() implies (#[trigger] crate::search::term_counts(
        entry,
        terms,
    )[k] > 0 <==> holds(hay, crate::text::lowercase(words[k]))) by {
        crate::text::match_count_is_positive(hay, terms[k]);
        crate::laws::text::standing_somewhere(hay, terms[k]);
    }
    if entry.snippet.len() == 0 {
        assert(entry.snippet =~= Seq::<char>::empty());
    }
    if crate::search::found_by(entry, terms) {
        let k = choose|k: int|
            0 <= k < terms.len() && #[trigger] crate::search::term_counts(entry, terms)[k] > 0;
        assert(holds(hay, crate::text::lowercase(words[k])));
    }
    if is_found(entry, query) {
        let k = choose|k: int|
            0 <= k < words.len() && holds(hay, crate::text::lowercase(#[trigger] words[k]));
        assert(crate::search::term_counts(entry, terms)[k] > 0);
    }
}

proof fn found_slots_are_filtered(
    index: Seq<EntryModel>,
    query: Seq<char>,
    n: int,
    found: spec_fn(int) -> bool,
)
    requires
        0 <= n <= index.len(),
        forall|i: int| #[trigger] found(i) <==> is_found(index[i], query),
    ensures
        crate::search::found_slots(index, crate::search::query_terms(query), n) == positions(
            n,
        ).filter(found),
    decreases n,
{
    reveal(Seq::filter);
    if n > 0 {
        found_slots_are_filtered(index, query, n - 1, found);
        found_if_term_stands(index[n - 1], query);
        assert(found(n - 1) <==> is_found(index[n - 1], query));
        assert(positions(n).drop_last() == positions(n - 1));
        assert(positions(n).last() == n - 1);
    } else {
        assert(positions(0) == Seq::<int>::empty());
    }
}

/// Where the pages stand that a search finds.
pub open spec fn found_pages(index: Seq<EntryModel>, query: Seq<char>) -> Seq<int> {
    positions(index.len() as int).filter(|i: int| is_found(index[i], query))
}

/// What a search tells of the page at `slot`: where it stands, how often each word of the
/// query stands in it, its tier and its score.
pub open spec fn hit_on(index: Seq<EntryModel>, query: Seq<char>, slot: int) -> HitModel {
    HitModel {
        slot: slot as usize,
        counts: Seq::new(
            crate::text::words(query).len(),
            |k: int|
                crate::text::match_count(
                    searched_text(index[slot]),
                    crate::text::lowercase(crate::text::words(query)[k]),
                    0,
                ) as usize,
        ),
        tier: index[slot].tier,
        score: index[slot].score,
    }
}

/// A search finds exactly the pages in which a word of the query stands, in the order of the
/// index, and tells of each where it stands, how often each word stands in it, its tier and
/// its score.
pub proof fn searches_find_words(
    hits: Seq<SearchHit>,
    index: Seq<EntryModel>,
    query: Seq<char>,
)
    requires
        crate::search::are_hits(hits, index, crate::search::query_terms(query)),
    ensures
        Seq::new(hits.len(), |i: int| hits[i].slot as int) == found_pages(index, query),
        forall|i: int|
            0 <= i < hits.len() ==> (#[trigger] hits[i])@ == hit_on(
                index,
                query,
                hits[i].slot as int,
            ),
{
    let terms = crate::search::query_terms(query);
    let slots = crate::search::found_slots(index, terms, index.len() as int);
    found_slots_are_filtered(
        index,
        query,
        index.len() as int,
        |i: int| is_found(index[i], query),
    );
    assert(Seq::new(hits.len(), |i: int| hits[i].slot as int) == slots);
    assert forall|i: int| 0 <= i < hits.len() implies (#[trigger] hits[i])@ == hit_on(
        index,
        query,
        hits[i].slot as int,
    ) by {
        let hit = hits[i];
        let told = hit_on(index, query, hit.slot as int);
        assert(crate::search::tells(hit, index, terms));
        assert(searched_text(index[hit.slot as int]) == crate::search::haystack(
            index[hit.slot as int],
        ));
        assert forall|k: int| 0 <= k < hit.counts@.len() implies hit.counts@[k]
            == told.counts[k] by {
            assert(hit.counts@[k] == crate::search::term_counts(
                index[hit.slot as int],
                terms,
            )[k]);
        }
        assert(hit.counts@ =~= told.counts);
        assert(hit@ =~= told);
    }
}

/// No page is left out of a search but one of which only links are known: a page that has
/// been crawled or cached, or has a snippet, is found by every word of the query that stands
/// in its title, its snippet or its domain, in lower case.
pub proof fn crawled_pages_are_found(
    hits: Seq<SearchHit>,
    index: Seq<EntryModel>,
    query: Seq<char>,
    slot: int,
    k: int,
)
    requires
        crate::search::are_hits(hits, index, crate::search::query_terms(query)),
        0 <= slot < index.len(),
        index[slot].tier == Tier::Indexed || index[slot].tier == Tier::Cached
            || index[slot].snippet.len() > 0,
        0 <= k < crate::text::words(query).len(),
        holds(
            crate::text::lowercase(index[slot].title) + " "@ + crate::text::lowercase(
                index[slot].snippet,
            ) + " "@ + crate::text::lowercase(index[slot].domain),
            crate::text::lowercase(crate::text::words(query)[k]),
        ),
    ensures
        exists|i: int| 0 <= i < hits.len() && (#[trigger] hits[i]).slot == slot,
{
    searches_find_words(hits, index, query);
    let found = |i: int| is_found(index[i], query);
    let all = positions(index.len() as int);
    assert(crate::text::words(query)[k] == crate::text::words(query)[k]);
    assert(is_found(index[slot], query));
    assert(all[slot] == slot);
    all.lemma_filter_contains(found, slot);
    let slots = Seq::new(hits.len(), |i: int| hits[i].slot as int);
    assert(slots.contains(slot));
    let i = choose|i: int| 0 <= i < slots.len() && slots[i] == slot;
    assert(hits[i].slot == slot);
}

/// `picked` are the first of `all`, in the order that `before` gives: as many as the limit
/// allows, or all; each comes before the next, and before whatever is left out.
pub open spec fn are_first(
    picked: Seq<int>,
    all: Seq<int>,
    before: spec_fn(int, int) -> bool,
    limit: int,
) -> bool {
    &&& picked.len() == if limit < all.len() {
        limit
    } else {
        all.len() as int
    }
    &&& forall|i: int| 0 <= i < picked.len() ==> all.contains(#[trigger] picked[i])
    &&& forall|i: int, j: int|
        0 <= i < j < picked.len() ==> before(#[trigger] picked[i], #[trigger] picked[j])
    &&& forall|i: int, p: int|
        0 <= i < picked.len() && 0 <= p < all.len() && !picked.contains(all[p]) ==> before(
            #[trigger] picked[i],
            #[trigger] all[p],
        )
}

proof fn sorted_are_first(
    keys: Seq<u64>,
    order: Seq<usize>,
    all: Seq<int>,
    before: spec_fn(int, int) -> bool,
    limit: int,
    picked: Seq<int>,
)
    requires
        crate::order::stably_sorts(keys, order),
        keys.len() == all.len(),
        0 <= limit,
        forall|i: int, j: int| 0 <= i < j < all.len() ==> #[trigger] all[i] < #[trigger] all[j],
        forall|p: int, q: int|
            0 <= p < all.len() && 0 <= q < all.len() && (keys[p] < keys[q] || (keys[p] == keys[q]
                && p < q)) ==> before(#[trigger] all[p], #[trigger] all[q]),
        picked == Seq::new(
            if limit < order.len() {
                limit as nat
            } else {
                order.len()
            },
            |i: int| all[order[i] as int],
        ),
    ensures
        are_first(picked, all, before, limit),
{
    assert forall|i: int| 0 <= i < picked.len() implies all.contains(#[trigger] picked[i]) by {
        assert(all[order[i] as int] == picked[i]);
    }
    assert forall|i: int, j: int| 0 <= i < j < picked.len() implies before(
        #[trigger] picked[i],
        #[trigger] picked[j],
    ) by {
        assert(crate::order::precedes(keys, order[i] as int, order[j] as int));
        assert(before(all[order[i] as int], all[order[j] as int]));
    }
    assert forall|i: int, p: int|
        0 <= i < picked.len() && 0 <= p < all.len() && !picked.contains(all[p]) implies before(
        #[trigger] picked[i],
        #[trigger] all[p],
    ) by {
        assert(crate::order::listed(order, p));
        let k = choose|k: int| 0 <= k < order.len() && #[trigger] order[k] == p;
        if k < picked.len() {
            assert(picked[k] == all[p]);
        }
        assert(crate::order::precedes(keys, order[i] as int, order[k] as int));
        assert(before(all[order[i] as int], all[p]));
    }
}

/// A page as it stands in an answer: as it is in the index, with the weight by which it was
/// ranked and the seconds since it was seen.
pub open spec fn shown(entry: EntryModel, weight: u64, now: Timestamp) -> ResultModel {
    ResultModel {
        url: entry.url,
        domain: entry.domain,
        title: entry.title,
        snippet: entry.snippet,
        tier: entry.tier,
        score: weight,
        tags: entry.tags,
        age_secs: crate::clock::clamp_i64(now.whole_secs_since(entry.last_seen)),
    }
}

/// An answer shows the pages that the search finds, those of the greatest weights first and
/// of pages of equal weight the one that came into the index first, up to the limit. No page
/// that is left out weighs more than one that is shown.
pub proof fn answers_show_the_weightiest<F: Fn(&SearchHit) -> u64>(
    weigh: F,
    weight: spec_fn(HitModel) -> u64,
    results: Seq<ResultModel>,
    index: Seq<EntryModel>,
    query: Seq<char>,
    limit: usize,
    now: Timestamp,
) -> (picked: Seq<int>)
    requires
        crate::search::weighed_by(weigh, weight),
        crate::search::is_answer(results, index, query, limit, now, weigh),
    ensures
        are_first(
            picked,
            found_pages(index, query),
            |a: int, b: int|
                {
                    let heavy = weight(hit_on(index, query, a));
                    let light = weight(hit_on(index, query, b));
                    heavy > light || (heavy == light && a < b)
                },
            limit as int,
        ),
        results == Seq::new(
            picked.len(),
            |i: int| shown(index[picked[i]], weight(hit_on(index, query, picked[i])), now),
        ),
{
    let terms = crate::search::query_terms(query);
    let (hits, weights) = choose|hits: Seq<SearchHit>, weights: Seq<u64>|
        {
            &&& #[trigger] crate::search::are_hits(hits, index, terms)
            &&& weights.len() == hits.len()
            &&& forall|i: int|
                0 <= i < hits.len() ==> call_ensures(weigh, (&hits[i],), #[trigger] weights[i])
            &&& #[trigger] crate::search::ranked(results, index, hits, weights, limit, now)
        };
    searches_find_words(hits, index, query);
    crate::search::found_slots_rise(index, terms, index.len() as int);
    let all = found_pages(index, query);
    assert(all == Seq::new(hits.len(), |i: int| hits[i].slot as int));
    assert forall|i: int, j: int| 0 <= i < j < all.len() implies #[trigger] all[i]
        < #[trigger] all[j] by {
        let slots = crate::search::found_slots(index, terms, index.len() as int);
        assert(hits[i].slot == slots[i] && hits[j].slot == slots[j]);
        assert(slots[i] < slots[j]);
    }
    assert forall|p: int| 0 <= p < weights.len() implies #[trigger] weights[p] == weight(
        hit_on(index, query, all[p]),
    ) by {
        assert(call_ensures(weigh, (&hits[p],), weights[p]));
        assert(hits[p]@ == hit_on(index, query, hits[p].slot as int));
        assert(all[p] == hits[p].slot);
    }
    let keys = crate::search::inverted(weights);
    let order = choose|order: Seq<usize>| #[trigger]
        crate::order::stably_sorts(keys, order) && results == crate::search::in_order(
            index,
            hits,
            weights,
            order,
            limit,
            now,
        );
    let before = |a: int, b: int|
        {
            let heavy = weight(hit_on(index, query, a));
            let light = weight(hit_on(index, query, b));
            heavy > light || (heavy == light && a < b)
        };
    let picked = Seq::new(
        if limit < order.len() {
            limit as nat
        } else {
            order.len()
        },
        |i: int| all[order[i] as int],
    );
    assert forall|p: int, q: int|
        0 <= p < all.len() && 0 <= q < all.len() && (keys[p] < keys[q] || (keys[p] == keys[q] && p
            < q)) implies before(#[trigger] all[p], #[trigger] all[q]) by {
        assert(weights[p] == weight(hit_on(index, query, all[p])));
        assert(weights[q] == weight(hit_on(index, query, all[q])));
    }
    sorted_are_first(keys, order, all, before, limit as int, picked);
    assert forall|i: int| 0 <= i < results.len() implies #[trigger] results[i] == shown(
        index[picked[i]],
        weight(hit_on(index, query, picked[i])),
        now,
    ) by {
        let p = order[i] as int;
        assert(all[p] == hits[p].slot);
        assert(weights[p] == weight(hit_on(index, query, all[p])));
    }
    assert(results =~= Seq::new(
        picked.len(),
        |i: int| shown(index[picked[i]], weight(hit_on(index, query, picked[i])), now),
    ));
    picked
}

/// A cached page counts twice as much as one that has been crawled, and that twice as much
/// as one of which only links are known.
pub proof fn tiers_weigh()
    ensures
        crate::search::boost_of(Tier::Indexed) == 20,
        crate::search::boost_of(Tier::Cached) == 2 * crate::search::boost_of(Tier::Indexed),
        crate::search::boost_of(Tier::Indexed) == 2 * crate::search::boost_of(Tier::Known),
{
}

/// A word of the query, in lower case, stands in the title or in the snippet in lower case.
pub open spec fn fits_query(title: Seq<char>, snippet: Seq<char>, query: Seq<char>) -> bool {
    exists|k: int|
        0 <= k < crate::text::words(query).len() && (holds(
            crate::text::lowercase(title),
            crate::text::lowercase(#[trigger] crate::text::words(query)[k]),
        ) || holds(
            crate::text::lowercase(snippet),
            crate::text::lowercase(crate::text::words(query)[k]),
        ))
}

/// A page is mentioned by a query exactly if a word of the query stands in its title or its
/// snippet.
pub proof fn queries_mention_by_words(title: Seq<char>, snippet: Seq<char>, query: Seq<char>)
    ensures
        crate::search::mentions(title, snippet, crate::search::query_terms(query)) <==> fits_query(
            title,
            snippet,
            query,
        ),
{
    let terms = crate::search::query_terms(query);
    let words = crate::text::words(query);
    let a = crate::text::lowercase(title);
    let b = crate::text::lowercase(snippet);
    assert forall|k: int| 0 <= k < words.len() implies #[trigger] terms[k]
        == crate::text::lowercase(words[k]) && (crate::text::occurs(a, terms[k]) <==> holds(
        a,
        terms[k],
    )) && (crate::text::occurs(b, terms[k]) <==> holds(b, terms[k])) by {
        crate::laws::text::standing_somewhere(a, terms[k]);
        crate::laws::text::standing_somewhere(b, terms[k]);
    }
    if crate::search::mentions(title, snippet, terms) {
        let k = choose|k: int|
            0 <= k < terms.len() && (crate::text::occurs(a, #[trigger] terms[k])
                || crate::text::occurs(b, terms[k]));
        assert(words[k] == words[k]);
        assert(holds(a, crate::text::lowercase(words[k])) || holds(
            b,
            crate::text::lowercase(words[k]),
        ));
    }
    if fits_query(title, snippet, query) {
        let k = choose|k: int|
            0 <= k < words.len() && (holds(a, crate::text::lowercase(#[trigger] words[k]))
                || holds(b, crate::text::lowercase(words[k])));
        assert(terms[k] == crate::text::lowercase(words[k]));
    }
}

/// News of a page takes the place of what was known of it, but a cached page stays cached and
/// the higher score counts; a page that was not known comes behind all others. No other page
/// changes.
pub proof fn news_replaces_one_page(
    index: Seq<EntryModel>,
    news: EntryModel,
    slot: int,
    other: int,
)
    requires
        crate::search::distinct_urls(index),
        0 <= other < index.len(),
    ensures
        (forall|i: int| 0 <= i < index.len() ==> (#[trigger] index[i]).url != news.url)
            ==> crate::search::upserted(index, news) == index.push(news),
        0 <= slot < index.len() && index[slot].url == news.url ==> crate::search::upserted(
            index,
            news,
        ) == index.update(
            slot,
            EntryModel {
                tier: if index[slot].tier == Tier::Cached {
                    Tier::Cached
                } else {
                    news.tier
                },
                score: if index[slot].score >= news.score {
                    index[slot].score
                } else {
                    news.score
                },
                ..news
            },
        ),
        index[other].url != news.url ==> crate::search::upserted(index, news)[other]
            == index[other],
{
    crate::search::slot_is_sound(index, news.url);
    if 0 <= slot < index.len() && index[slot].url == news.url {
        crate::search::slot_is_unique(index, slot);
    }
    if let Some(found) = crate::search::slot_of(index, news.url) {
        assert(index[found].url == news.url);
    }
}

/// A link to a page that is in the index raises its score by a tenth of a point and changes
/// nothing else of it; a page that is not comes in behind all others, with the text of the
/// link as its title, no snippet, a tenth of a point, and as one of which only links are
/// known.
pub proof fn links_raise_or_enter(
    index: Seq<EntryModel>,
    url: Seq<char>,
    domain: Seq<char>,
    anchor_text: Seq<char>,
    now: Timestamp,
    slot: int,
)
    requires
        crate::search::distinct_urls(index),
    ensures
        (forall|i: int| 0 <= i < index.len() ==> (#[trigger] index[i]).url != url)
            ==> crate::search::with_link(index, url, domain, anchor_text, now) == index.push(
            EntryModel {
                url,
                domain,
                title: anchor_text,
                snippet: Seq::empty(),
                tier: Tier::Known,
                last_seen: now,
                score: 2,
                tags: Seq::empty(),
            },
        ),
        0 <= slot < index.len() && index[slot].url == url ==> crate::search::with_link(
            index,
            url,
            domain,
            anchor_text,
            now,
        ) == index.update(
            slot,
            EntryModel {
                score: if index[slot].score + 2 <= u64::MAX {
                    (index[slot].score + 2) as u64
                } else {
                    u64::MAX
                },
                ..index[slot]
            },
        ),
{
    crate::search::slot_is_sound(index, url);
    if 0 <= slot < index.len() && index[slot].url == url {
        crate::search::slot_is_unique(index, slot);
    }
    if let Some(found) = crate::search::slot_of(index, url) {
        assert(index[found].url == url);
    }
}

/// Marking a page as cached changes its tier and nothing else; a page that the index does not
/// have changes nothing.
pub proof fn marking_changes_the_tier(index: Seq<EntryModel>, url: Seq<char>, slot: int)
    requires
        crate::search::distinct_urls(index),
    ensures
        (forall|i: int| 0 <= i < index.len() ==> (#[trigger] index[i]).url != url)
            ==> crate::search::with_cached(index, url) == index,
        0 <= slot < index.len() && index[slot].url == url ==> crate::search::with_cached(
            index,
            url,
        ) == index.update(slot, EntryModel { tier: Tier::Cached, ..index[slot] }),
{
    crate::search::slot_is_sound(index, url);
    if 0 <= slot < index.len() && index[slot].url == url {
        crate::search::slot_is_unique(index, slot);
    }
    if let Some(found) = crate::search::slot_of(index, url) {
        assert(index[found].url == url);
    }
}

/// An index that is loaded from a list has one page for each URL in the list, the last one
/// that the list has for it, and no other page.
pub proof fn loading_keeps_the_last(entries: Seq<EntryModel>, url: Seq<char>)
    ensures
        crate::search::distinct_urls(crate::search::loaded(entries)),
        match crate::search::slot_of(crate::search::loaded(entries), url) {
            Some(slot) => 0 <= slot < crate::search::loaded(entries).len()
                && last_with_url(entries, url, crate::search::loaded(entries)[slot]),
            None => forall|i: int| 0 <= i < entries.len() ==> (#[trigger] entries[i]).url != url,
        },
    decreases entries.len(),
{
    let after = crate::search::loaded(entries);
    if entries.len() > 0 {
        let front = entries.drop_last();
        let last = entries.last();
        let before = crate::search::loaded(front);
        loading_keeps_the_last(front, url);
        loading_keeps_the_last(front, last.url);
        crate::search::slot_is_sound(before, last.url);
        assert forall|i: int, j: int| 0 <= i < j < after.len() implies (#[trigger] after[i]).url
            != (#[trigger] after[j]).url by {
            if j < before.len() {
                assert(before[i].url != before[j].url);
            } else {
                assert(before[i].url != last.url);
            }
        }
        let place = match crate::search::slot_of(before, last.url) {
            Some(slot) => slot,
            None => before.len() as int,
        };
        assert(after[place] == last);
        crate::search::slot_is_sound(before, url);
        crate::search::slot_is_sound(after, url);
        if url == last.url {
            crate::search::slot_is_unique(after, place);
            assert(entries[entries.len() - 1] == last);
            assert(last_with_url(entries, url, last));
        } else {
            match crate::search::slot_of(before, url) {
                Some(slot) => {
                    assert(slot != place);
                    assert(after[slot] == before[slot]);
                    crate::search::slot_is_unique(after, slot);
                    let entry = before[slot];
                    let i = choose|i: int|
                        0 <= i < front.len() && #[trigger] front[i] == entry && entry.url == url
                            && forall|j: int| i < j < front.len() ==> (#[trigger] front[j]).url
                            != url;
                    assert(entries[i] == entry);
                    assert forall|j: int| i < j < entries.len() implies (#[trigger] entries[j]).url
                        != url by {
                        if j < front.len() {
                            assert(front[j].url != url);
                        }
                    }
                    assert(last_with_url(entries, url, entry));
                },
                None => {
                    if let Some(slot) = crate::search::slot_of(after, url) {
                        if slot < before.len() {
                            assert(before[slot].url != url);
                        }
                    }
                    assert forall|i: int| 0 <= i < entries.len() implies (
                    #[trigger] entries[i]).url != url by {
                        if i < front.len() {
                            assert(front[i].url != url);
                        }
                    }
                },
            }
        }
    }
}

/// `entry` is the last of the entries with this URL.
pub open spec fn last_with_url(
    entries: Seq<EntryModel>,
    url: Seq<char>,
    entry: EntryModel,
) -> bool {
    exists|i: int|
        0 <= i < entries.len() && #[trigger] entries[i] == entry && entry.url == url && forall|
            j: int,
        |
            i < j < entries.len() ==> (#[trigger] entries[j]).url != url
}

/// The pages of a tier are counted one by one.
pub proof fn tiers_are_counted(index: Seq<EntryModel>, tier: Tier)
    ensures
        crate::search::tier_count(index, tier) == index.filter(
            |entry: EntryModel| entry.tier == tier,
        ).len(),
    decreases index.len(),
{
    reveal(Seq::filter);
    if index.len() > 0 {
        tiers_are_counted(index.drop_last(), tier);
    }
}

/// The title by which a page is known is the one it has in the index.
pub proof fn pages_are_found_by_their_url(index: Seq<EntryModel>, slot: int, url: Seq<char>)
    requires
        crate::search::distinct_urls(index),
        0 <= slot < index.len(),
    ensures
        crate::search::slot_of(index, index[slot].url) == Some(slot),
        (forall|i: int| 0 <= i < index.len() ==> (#[trigger] index[i]).url != url)
            <==> crate::search::slot_of(index, url) is None,
{
    crate::search::slot_is_unique(index, slot);
    crate::search::slot_is_sound(index, url);
    if let Some(found) = crate::search::slot_of(index, url) {
        assert(index[found].url == url);
    }
}

/// A page ought to be crawled if only links to it are known, or if it was crawled more than
/// three days ago; a cached page never.
pub open spec fn ought_to_be_crawled(entry: EntryModel, now: Timestamp) -> bool {
    ||| entry.tier == Tier::Known
    ||| entry.tier == Tier::Indexed && (now.secs - entry.last_seen.secs) * 1_000_000_000 + (
    now.nanos - entry.last_seen.nanos) > 3 * 24 * 60 * 60 * 1_000_000_000
}

proof fn due_slots_are_filtered(
    index: Seq<EntryModel>,
    now: Timestamp,
    n: int,
    due: spec_fn(int) -> bool,
)
    requires
        0 <= n <= index.len(),
        forall|i: int| #[trigger] due(i) <==> ought_to_be_crawled(index[i], now),
    ensures
        crate::search::due_slots(index, now, n) == positions(n).filter(due),
    decreases n,
{
    reveal(Seq::filter);
    if n > 0 {
        due_slots_are_filtered(index, now, n - 1, due);
        assert(due(n - 1) <==> ought_to_be_crawled(index[n - 1], now));
        assert(positions(n).drop_last() == positions(n - 1));
        assert(positions(n).last() == n - 1);
    } else {
        assert(positions(0) == Seq::<int>::empty());
    }
}

/// What comes up for crawling are pages that ought to be crawled and no others, those with
/// the least shuffle keys of the second, in the order of their keys, up to the limit. Every
/// page that ought to be crawled takes part, wherever it stands in the index.
pub proof fn least_keys_come_up(
    list: Seq<(Seq<char>, Seq<char>, Seq<char>)>,
    index: Seq<EntryModel>,
    now: Timestamp,
    limit: usize,
) -> (picked: Seq<int>)
    requires
        crate::search::are_candidates(list, index, now, limit),
    ensures
        are_first(
            picked,
            positions(index.len() as int).filter(|i: int| ought_to_be_crawled(index[i], now)),
            |a: int, b: int|
                {
                    let seed = if now.secs < 0 {
                        0
                    } else {
                        now.secs as u64
                    };
                    let x = crate::search::shuffle_key(index[a].url, seed);
                    let y = crate::search::shuffle_key(index[b].url, seed);
                    x < y || (x == y && a < b)
                },
            limit as int,
        ),
        list == Seq::new(
            picked.len(),
            |i: int|
                (index[picked[i]].url, index[picked[i]].title, index[picked[i]].snippet),
        ),
{
    let n = index.len() as int;
    let slots = crate::search::due_slots(index, now, n);
    due_slots_are_filtered(index, now, n, |i: int| ought_to_be_crawled(index[i], now));
    crate::search::due_slots_are_due(index, now, n);
    let keys = crate::search::shuffle_keys(index, slots, now.seed());
    let order = choose|order: Seq<usize>| #[trigger]
        crate::order::stably_sorts(keys, order) && list == crate::search::first_in_order(
            index,
            slots,
            order,
            limit,
        );
    let before = |a: int, b: int|
        {
            let seed = if now.secs < 0 {
                0
            } else {
                now.secs as u64
            };
            let x = crate::search::shuffle_key(index[a].url, seed);
            let y = crate::search::shuffle_key(index[b].url, seed);
            x < y || (x == y && a < b)
        };
    let picked = Seq::new(
        if limit < order.len() {
            limit as nat
        } else {
            order.len()
        },
        |i: int| slots[order[i] as int],
    );
    sorted_are_first(keys, order, slots, before, limit as int, picked);
    assert(list =~= Seq::new(
        picked.len(),
        |i: int| (index[picked[i]].url, index[picked[i]].title, index[picked[i]].snippet),
    ));
    picked
}

/// The shuffle key of a page is the hash of the bytes of its URL, a byte that ends them, and
/// the seconds in eight bytes, the lowest first.
pub proof fn keys_are_hashes(url: Seq<char>, seed: u64, bytes: Seq<u8>)
    requires
        bytes.len() == 8,
        seed == bytes[0] + bytes[1] * 0x100 + bytes[2] * 0x1_0000 + bytes[3] * 0x100_0000
            + bytes[4] * 0x1_0000_0000 + bytes[5] * 0x100_0000_0000 + bytes[6]
            * 0x1_0000_0000_0000 + bytes[7] * 0x100_0000_0000_0000,
    ensures
        crate::search::shuffle_key(url, seed) == DefaultHasher::spec_finish(
            seq![encode_utf8(url), seq![0xffu8], bytes],
        ),
{
    let (a, b, c, d) = (bytes[0], bytes[1], bytes[2], bytes[3]);
    let (e, f, g, h) = (bytes[4], bytes[5], bytes[6], bytes[7]);
    assert(seed as u8 == a && (seed >> 8) as u8 == b && (seed >> 16) as u8 == c && (seed
        >> 24) as u8 == d && (seed >> 32) as u8 == e && (seed >> 40) as u8 == f && (seed
        >> 48) as u8 == g && (seed >> 56) as u8 == h) by (bit_vector)
        requires
            seed == a + b * 0x100 + c * 0x1_0000 + d * 0x100_0000 + e * 0x1_0000_0000 + f
                * 0x100_0000_0000 + g * 0x1_0000_0000_0000 + h * 0x100_0000_0000_0000,
    ;
    assert(crate::search::low_first(seed) =~= bytes);
}

/// The whole seconds between two moments: as many seconds as have passed in full, counted
/// back where the moment comes first, and the nearest that 64 bits hold.
pub proof fn ages_are_whole_seconds(now: Timestamp, before: Timestamp)
    ensures
        ({
            let span = (now.secs - before.secs) * 1_000_000_000 + (now.nanos - before.nanos);
            let secs = now.whole_secs_since(before);
            &&& span >= 0 ==> 0 <= secs && secs * 1_000_000_000 <= span < (secs + 1)
                * 1_000_000_000
            &&& span < 0 ==> secs <= 0 && (secs - 1) * 1_000_000_000 < span <= secs
                * 1_000_000_000
            &&& i64::MIN <= secs <= i64::MAX ==> crate::clock::clamp_i64(secs) == secs
            &&& secs > i64::MAX ==> crate::clock::clamp_i64(secs) == i64::MAX
            &&& secs < i64::MIN ==> crate::clock::clamp_i64(secs) == i64::MIN
        }),
{
}

} // verus!
