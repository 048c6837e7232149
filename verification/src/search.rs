//! The index of pages, and the search in it.
//!
//! Scores are counted in twentieths of a point.
use dashmap::DashMap;
use std::collections::hash_map::DefaultHasher;
use std::hash::Hasher;
use vstd::prelude::*;
use vstd::std_specs::hash::DefaultHasherAdditionalSpecFns;
use vstd::utf8::encode_utf8;

use crate::clock::Timestamp;
use crate::clock::THREE_DAYS_NANOS;
use crate::interest::capped;
use crate::order::stable_order;
use crate::store::store_get;
use crate::store::store_insert;
use crate::store::store_new;
use crate::store::stored;
use crate::text::chars_of;
use crate::text::count_matches;
use crate::text::find_from;
use crate::text::split_words;
use crate::text::text_of;
use crate::text::texts;
use crate::text::to_lowercase;

verus! {

/// How much is known of a page.
#[derive(Debug, Clone, Copy, PartialEq, Eq, Structural)]
pub enum Tier {
    /// The page itself is in the cache.
    Cached,
    /// The page has been crawled.
    Indexed,
    /// Only links to the page have been seen.
    Known,
}

/// A page in the index.
#[derive(Debug, Clone)]
pub struct IndexEntry {
    pub url: String,
    pub domain: String,
    pub title: String,
    pub snippet: String,
    pub tier: Tier,
    pub last_seen: Timestamp,
    pub score: u64,
    pub tags: Vec<String>,
}

/// A page in the index as a mathematical value.
#[verifier::ext_equal]
pub struct EntryModel {
    pub url: Seq<char>,
    pub domain: Seq<char>,
    pub title: Seq<char>,
    pub snippet: Seq<char>,
    pub tier: Tier,
    pub last_seen: Timestamp,
    pub score: u64,
    pub tags: Seq<Seq<char>>,
}

impl View for IndexEntry {
    type V = EntryModel;

    open spec fn view(&self) -> EntryModel {
        EntryModel {
            url: self.url@,
            domain: self.domain@,
            title: self.title@,
            snippet: self.snippet@,
            tier: self.tier,
            last_seen: self.last_seen,
            score: self.score,
            tags: texts(self.tags@),
        }
    }
}

/// What a list of entries holds.
pub open spec fn entry_views(list: Seq<IndexEntry>) -> Seq<EntryModel> {
    Seq::new(list.len(), |i: int| list[i]@)
}

/// Where the page with this URL stands in the index.
pub open spec fn slot_of(index: Seq<EntryModel>, url: Seq<char>) -> Option<int>
    decreases index.len(),
{
    if index.len() == 0 {
        None
    } else if index.last().url == url {
        Some(index.len() - 1)
    } else {
        slot_of(index.drop_last(), url)
    }
}

/// No two entries have the same URL.
pub open spec fn distinct_urls(index: Seq<EntryModel>) -> bool {
    forall|i: int, j: int|
        0 <= i < j < index.len() ==> (#[trigger] index[i]).url != (#[trigger] index[j]).url
}

/// What is in the index of a page after news of it: all of the news, but a cached page
/// stays cached, and the higher score counts.
pub open spec fn merged(existing: EntryModel, news: EntryModel) -> EntryModel {
    EntryModel {
        url: news.url,
        domain: news.domain,
        title: news.title,
        snippet: news.snippet,
        tier: if existing.tier == Tier::Cached {
            Tier::Cached
        } else {
            news.tier
        },
        last_seen: news.last_seen,
        score: if existing.score > news.score {
            existing.score
        } else {
            news.score
        },
        tags: news.tags,
    }
}

/// The index after news of a page.
pub open spec fn upserted(index: Seq<EntryModel>, news: EntryModel) -> Seq<EntryModel> {
    match slot_of(index, news.url) {
        Some(slot) => index.update(slot, merged(index[slot], news)),
        None => index.push(news),
    }
}

/// The index after `entry` has taken the place of what was known of the page.
pub open spec fn replaced(index: Seq<EntryModel>, entry: EntryModel) -> Seq<EntryModel> {
    match slot_of(index, entry.url) {
        Some(slot) => index.update(slot, entry),
        None => index.push(entry),
    }
}

/// The index made of a list of entries; of two with the same URL the later one counts.
pub open spec fn loaded(entries: Seq<EntryModel>) -> Seq<EntryModel>
    decreases entries.len(),
{
    if entries.len() == 0 {
        Seq::empty()
    } else {
        replaced(loaded(entries.drop_last()), entries.last())
    }
}

/// `entry` with a score that is a tenth of a point higher.
pub open spec fn raised(entry: EntryModel) -> EntryModel {
    EntryModel { score: capped(entry.score + 2), ..entry }
}

/// What is known of a page of which only a link has been seen.
pub open spec fn link_only(
    url: Seq<char>,
    domain: Seq<char>,
    anchor_text: Seq<char>,
    now: Timestamp,
) -> EntryModel {
    EntryModel {
        url,
        domain,
        title: anchor_text,
        snippet: Seq::empty(),
        tier: Tier::Known,
        last_seen: now,
        score: 2,
        tags: Seq::empty(),
    }
}

/// The index after a link to a page has been seen.
pub open spec fn with_link(
    index: Seq<EntryModel>,
    url: Seq<char>,
    domain: Seq<char>,
    anchor_text: Seq<char>,
    now: Timestamp,
) -> Seq<EntryModel> {
    match slot_of(index, url) {
        Some(slot) => index.update(slot, raised(index[slot])),
        None => index.push(link_only(url, domain, anchor_text, now)),
    }
}

/// The index after a page has gone into the cache.
pub open spec fn with_cached(index: Seq<EntryModel>, url: Seq<char>) -> Seq<EntryModel> {
    match slot_of(index, url) {
        Some(slot) => index.update(slot, EntryModel { tier: Tier::Cached, ..index[slot] }),
        None => index,
    }
}

/// The number of entries of a tier.
pub open spec fn tier_count(index: Seq<EntryModel>, tier: Tier) -> nat
    decreases index.len(),
{
    if index.len() == 0 {
        0
    } else {
        tier_count(index.drop_last(), tier) + if index.last().tier == tier {
            1nat
        } else {
            0nat
        }
    }
}

/// The index.
pub struct SearchIndex {
    /// Where the page of each URL stands.
    slots: DashMap<String, u64>,
    /// The pages, in the order in which they came.
    entries: Vec<IndexEntry>,
}

impl View for SearchIndex {
    type V = Seq<EntryModel>;

    closed spec fn view(&self) -> Seq<EntryModel> {
        entry_views(self.entries@)
    }
}

fn copy_texts(list: &Vec<String>) -> (copy: Vec<String>)
    ensures
        texts(copy@) == texts(list@),
{
    let mut copy: Vec<String> = Vec::new();
    for i in 0..list.len()
        invariant
            copy.len() == i,
            forall|j: int| 0 <= j < i ==> (#[trigger] copy@[j])@ == list@[j]@,
    {
        copy.push(list[i].clone());
    }
    assert(texts(copy@) == texts(list@));
    copy
}

impl IndexEntry {
    /// A second entry with the same contents.
    pub fn copied(&self) -> (copy: IndexEntry)
        ensures
            copy@ == self@,
    {
        IndexEntry {
            url: self.url.clone(),
            domain: self.domain.clone(),
            title: self.title.clone(),
            snippet: self.snippet.clone(),
            tier: self.tier,
            last_seen: self.last_seen,
            score: self.score,
            tags: copy_texts(&self.tags),
        }
    }
}

/// A page that is found by its URL has that URL, and where none is found there is none.
pub proof fn slot_is_sound(index: Seq<EntryModel>, url: Seq<char>)
    ensures
        slot_of(index, url) matches Some(slot) ==> 0 <= slot < index.len() && index[slot].url
            == url,
        slot_of(index, url) is None ==> forall|i: int|
            0 <= i < index.len() ==> (#[trigger] index[i]).url != url,
    decreases index.len(),
{
    if index.len() > 0 && index.last().url != url {
        slot_is_sound(index.drop_last(), url);
        if slot_of(index, url) is None {
            assert forall|i: int| 0 <= i < index.len() implies (#[trigger] index[i]).url != url by {
                if i < index.len() - 1 {
                    assert(index.drop_last()[i].url != url);
                }
            }
        }
    }
}

/// In an index without two pages of one URL, a page is found by its URL.
pub proof fn slot_is_unique(index: Seq<EntryModel>, slot: int)
    requires
        distinct_urls(index),
        0 <= slot < index.len(),
    ensures
        slot_of(index, index[slot].url) == Some(slot),
{
    slot_is_sound(index, index[slot].url);
    let found = slot_of(index, index[slot].url)->0;
    if found < slot {
        assert(index[found].url != index[slot].url);
    } else if slot < found {
        assert(index[slot].url != index[found].url);
    }
}

impl SearchIndex {
    /// Every page stands where its URL is filed, and nothing else is filed.
    pub closed spec fn wf(&self) -> bool {
        &&& distinct_urls(self@)
        &&& forall|i: int|
            0 <= i < self@.len() ==> stored(self.slots).contains_key((#[trigger] self@[i]).url)
                && stored(self.slots)[self@[i].url] == i
        &&& forall|url: Seq<char>| #[trigger]
            stored(self.slots).contains_key(url) ==> stored(self.slots)[url] < self@.len()
                && self@[stored(self.slots)[url] as int].url == url
    }

    /// No two entries of a well-formed index have the same URL.
    pub proof fn urls_are_distinct(&self)
        requires
            self.wf(),
        ensures
            distinct_urls(self@),
    {
    }

    /// An empty index.
    pub fn new() -> (index: SearchIndex)
        ensures
            index@ == Seq::<EntryModel>::empty(),
            index.wf(),
    {
        SearchIndex { slots: store_new(), entries: Vec::new() }
    }

    fn slot(&self, url: &str) -> (slot: Option<usize>)
        requires
            self.wf(),
        ensures
            crate::text::opt_int(slot) == slot_of(self@, url@),
            slot matches Some(found) ==> found < self@.len() && self@[found as int].url == url@,
    {
        let count: usize = self.entries.len();
        match store_get(&self.slots, url) {
            Some(slot) => {
                assert(slot < count);
                proof {
                    slot_is_unique(self@, slot as int);
                }
                Some(slot as usize)
            },
            None => {
                proof {
                    slot_is_sound(self@, url@);
                }
                None
            },
        }
    }

    fn set(&mut self, slot: usize, entry: IndexEntry)
        requires
            old(self).wf(),
            slot < old(self)@.len(),
            entry.url@ == old(self)@[slot as int].url,
        ensures
            final(self)@ == old(self)@.update(slot as int, entry@),
            final(self).wf(),
    {
        let ghost before = self@;
        self.entries.set(slot, entry);
        proof {
            assert(self@ == before.update(slot as int, entry@));
            assert forall|i: int| 0 <= i < self@.len() implies (#[trigger] self@[i]).url
                == before[i].url by {}
        }
    }

    fn add(&mut self, entry: IndexEntry)
        requires
            old(self).wf(),
            slot_of(old(self)@, entry.url@) is None,
        ensures
            final(self)@ == old(self)@.push(entry@),
            final(self).wf(),
    {
        let ghost before = self@;
        proof {
            slot_is_sound(before, entry.url@);
        }
        store_insert(&mut self.slots, entry.url.clone(), self.entries.len() as u64);
        self.entries.push(entry);
        proof {
            assert(self@ == before.push(entry@));
            assert forall|i: int| 0 <= i < before.len() implies (#[trigger] before[i]).url
                == self@[i].url by {}
        }
    }

    /// Takes in news of a page. A cached page stays cached, and the higher of the two
    /// scores counts.
    pub fn upsert(&mut self, entry: IndexEntry)
        requires
            old(self).wf(),
        ensures
            final(self)@ == upserted(old(self)@, entry@),
            final(self).wf(),
    {
        let mut entry = entry;
        match self.slot(entry.url.as_str()) {
            Some(slot) => {
                if self.entries[slot].tier == Tier::Cached && entry.tier != Tier::Cached {
                    entry.tier = Tier::Cached;
                }
                if self.entries[slot].score > entry.score {
                    entry.score = self.entries[slot].score;
                }
                self.set(slot, entry);
            },
            None => self.add(entry),
        }
    }

    /// Takes note of a link to a page: a page in the index gains a tenth of a point, any
    /// other is entered as known.
    pub fn add_known(&mut self, url: &str, domain: &str, anchor_text: &str, now: Timestamp)
        requires
            old(self).wf(),
        ensures
            final(self)@ == with_link(old(self)@, url@, domain@, anchor_text@, now),
            final(self).wf(),
    {
        match self.slot(url) {
            Some(slot) => {
                let mut entry = self.entries[slot].copied();
                entry.score = entry.score.saturating_add(2);
                self.set(slot, entry);
            },
            None => {
                let entry = IndexEntry {
                    url: url.to_owned(),
                    domain: domain.to_owned(),
                    title: anchor_text.to_owned(),
                    snippet: String::new(),
                    tier: Tier::Known,
                    last_seen: now,
                    score: 2,
                    tags: Vec::new(),
                };
                assert(entry@.tags == Seq::<Seq<char>>::empty());
                self.add(entry);
            },
        }
    }

    /// Takes note that a page has gone into the cache, if the index has it.
    pub fn mark_cached(&mut self, url: &str)
        requires
            old(self).wf(),
        ensures
            final(self)@ == with_cached(old(self)@, url@),
            final(self).wf(),
    {
        if let Some(slot) = self.slot(url) {
            let mut entry = self.entries[slot].copied();
            entry.tier = Tier::Cached;
            self.set(slot, entry);
        }
    }

    /// The title of a page, if the index has the page.
    pub fn get_title(&self, url: &str) -> (title: Option<String>)
        requires
            self.wf(),
        ensures
            crate::web::opt_text(title) == match slot_of(self@, url@) {
                Some(slot) => Some(self@[slot].title),
                None => None,
            },
    {
        match self.slot(url) {
            Some(slot) => Some(self.entries[slot].title.clone()),
            None => None,
        }
    }

    /// The number of pages.
    pub fn entry_count(&self) -> (count: usize)
        ensures
            count == self@.len(),
    {
        self.entries.len()
    }

    fn count_tier(&self, tier: Tier) -> (count: usize)
        ensures
            count == tier_count(self@, tier),
    {
        let mut count: usize = 0;
        for i in 0..self.entries.len()
            invariant
                count <= i,
                count == tier_count(self@.take(i as int), tier),
        {
            assert(self@.take(i + 1).drop_last() == self@.take(i as int));
            assert(self@.take(i + 1).last() == self.entries@[i as int]@);
            if self.entries[i].tier == tier {
                count = count + 1;
            }
        }
        assert(self@.take(self@.len() as int) == self@);
        count
    }

    /// The number of pages in the cache.
    pub fn cached_count(&self) -> (count: usize)
        ensures
            count == tier_count(self@, Tier::Cached),
    {
        self.count_tier(Tier::Cached)
    }

    /// The number of pages of which only links have been seen.
    pub fn known_count(&self) -> (count: usize)
        ensures
            count == tier_count(self@, Tier::Known),
    {
        self.count_tier(Tier::Known)
    }

    /// All entries, in the order in which they came.
    pub fn save(&self) -> (entries: Vec<IndexEntry>)
        ensures
            entry_views(entries@) == self@,
    {
        let mut entries: Vec<IndexEntry> = Vec::new();
        for i in 0..self.entries.len()
            invariant
                entries.len() == i,
                forall|j: int| 0 <= j < i ==> (#[trigger] entries@[j])@ == self.entries@[j]@,
        {
            entries.push(self.entries[i].copied());
        }
        assert(entry_views(entries@) == self@);
        entries
    }

    /// The index of these entries.
    pub fn load(entries: &Vec<IndexEntry>) -> (index: SearchIndex)
        ensures
            index@ == loaded(entry_views(entries@)),
            index.wf(),
    {
        let mut index = SearchIndex::new();
        let ghost all = entry_views(entries@);
        for i in 0..entries.len()
            invariant
                all == entry_views(entries@),
                index@ == loaded(all.take(i as int)),
                index.wf(),
        {
            assert(all.take(i + 1).drop_last() == all.take(i as int));
            assert(all.take(i + 1).last() == entries@[i as int]@);
            let entry = entries[i].copied();
            match index.slot(entry.url.as_str()) {
                Some(slot) => index.set(slot, entry),
                None => index.add(entry),
            }
        }
        assert(all.take(all.len() as int) == all);
        index
    }
}

/// What a search looks for: the words of the query in lower case.
pub open spec fn query_terms(query: Seq<char>) -> Seq<Seq<char>> {
    Seq::new(
        crate::text::words(query).len(),
        |i: int| crate::text::lowercase(crate::text::words(query)[i]),
    )
}

/// What a search looks at: title, snippet and domain in lower case.
pub open spec fn haystack(entry: EntryModel) -> Seq<char> {
    crate::text::lowercase(entry.title) + " "@ + crate::text::lowercase(entry.snippet) + " "@
        + crate::text::lowercase(entry.domain)
}

/// How often each term stands in what a search looks at.
pub open spec fn term_counts(entry: EntryModel, terms: Seq<Seq<char>>) -> Seq<nat> {
    Seq::new(terms.len(), |i: int| crate::text::match_count(haystack(entry), terms[i], 0))
}

/// Something is known of the page but its title.
pub open spec fn searchable(entry: EntryModel) -> bool {
    entry.tier != Tier::Known || entry.snippet.len() > 0
}

/// A search for the terms finds the page: at least one of them stands in it.
pub open spec fn found_by(entry: EntryModel, terms: Seq<Seq<char>>) -> bool {
    &&& searchable(entry)
    &&& exists|i: int| 0 <= i < terms.len() && #[trigger] term_counts(entry, terms)[i] > 0
}

/// Where the pages stand that a search finds among the first `n`.
pub open spec fn found_slots(index: Seq<EntryModel>, terms: Seq<Seq<char>>, n: int) -> Seq<int>
    decreases n,
{
    if n <= 0 {
        Seq::empty()
    } else if found_by(index[n - 1], terms) {
        found_slots(index, terms, n - 1).push(n - 1)
    } else {
        found_slots(index, terms, n - 1)
    }
}

/// A page that a search has found, with what its weight depends on.
#[derive(Debug)]
pub struct SearchHit {
    /// Where the page stands in the index.
    pub slot: usize,
    /// How often each term of the search stands in the page's entry.
    pub counts: Vec<usize>,
    pub tier: Tier,
    pub score: u64,
}

/// A found page as a mathematical value.
#[verifier::ext_equal]
pub struct HitModel {
    pub slot: usize,
    pub counts: Seq<usize>,
    pub tier: Tier,
    pub score: u64,
}

impl View for SearchHit {
    type V = HitModel;

    open spec fn view(&self) -> HitModel {
        HitModel { slot: self.slot, counts: self.counts@, tier: self.tier, score: self.score }
    }
}

/// `hit` tells of the page at its slot what a search for the terms has found.
pub open spec fn tells(hit: SearchHit, index: Seq<EntryModel>, terms: Seq<Seq<char>>) -> bool {
    &&& hit.slot < index.len()
    &&& hit.tier == index[hit.slot as int].tier
    &&& hit.score == index[hit.slot as int].score
    &&& hit.counts@.len() == terms.len()
    &&& forall|i: int|
        0 <= i < terms.len() ==> #[trigger] hit.counts@[i] == term_counts(
            index[hit.slot as int],
            terms,
        )[i]
}

/// `hits` tells of every page that a search for the terms finds, in the order of the
/// index.
pub open spec fn are_hits(
    hits: Seq<SearchHit>,
    index: Seq<EntryModel>,
    terms: Seq<Seq<char>>,
) -> bool {
    let slots = found_slots(index, terms, index.len() as int);
    &&& hits.len() == slots.len()
    &&& forall|i: int|
        0 <= i < hits.len() ==> (#[trigger] hits[i]).slot == slots[i] && tells(
            hits[i],
            index,
            terms,
        )
}

/// By how much the tier of a page multiplies what the words found in it weigh, in
/// twentieths.
pub open spec fn boost_of(tier: Tier) -> u64 {
    match tier {
        Tier::Cached => 40,
        Tier::Indexed => 20,
        Tier::Known => 10,
    }
}

/// By how much the tier of a page multiplies what the words found in it weigh, in
/// twentieths: a cached page counts double, one that is only known half.
pub fn tier_boost(tier: Tier) -> (boost: u64)
    ensures
        boost == boost_of(tier),
{
    match tier {
        Tier::Cached => 40,
        Tier::Indexed => 20,
        Tier::Known => 10,
    }
}

/// A page in the answer to a search.
#[derive(Debug)]
pub struct SearchResult {
    pub url: String,
    pub domain: String,
    pub title: String,
    pub snippet: String,
    pub tier: Tier,
    /// The weight by which the page was ranked.
    pub score: u64,
    pub tags: Vec<String>,
    pub age_secs: i64,
}

/// A page in the answer to a search as a mathematical value.
#[verifier::ext_equal]
pub struct ResultModel {
    pub url: Seq<char>,
    pub domain: Seq<char>,
    pub title: Seq<char>,
    pub snippet: Seq<char>,
    pub tier: Tier,
    pub score: u64,
    pub tags: Seq<Seq<char>>,
    pub age_secs: i64,
}

impl View for SearchResult {
    type V = ResultModel;

    open spec fn view(&self) -> ResultModel {
        ResultModel {
            url: self.url@,
            domain: self.domain@,
            title: self.title@,
            snippet: self.snippet@,
            tier: self.tier,
            score: self.score,
            tags: texts(self.tags@),
            age_secs: self.age_secs,
        }
    }
}

/// What results hold.
pub open spec fn result_views(list: Seq<SearchResult>) -> Seq<ResultModel> {
    Seq::new(list.len(), |i: int| list[i]@)
}

/// A page with its weight as it stands in an answer.
pub open spec fn result_of(entry: EntryModel, weight: u64, now: Timestamp) -> ResultModel {
    ResultModel {
        url: entry.url,
        domain: entry.domain,
        title: entry.title,
        snippet: entry.snippet,
        tier: entry.tier,
        score: weight,
        tags: entry.tags,
        age_secs: crate::clock::clamp_i64(now.whole_secs_since(entry.last_seen)),
    }
}

/// Keys by which greater weights come first.
pub open spec fn inverted(weights: Seq<u64>) -> Seq<u64> {
    Seq::new(weights.len(), |i: int| (u64::MAX - weights[i]) as u64)
}

/// The first `limit` of the found pages in the given order.
pub open spec fn in_order(
    index: Seq<EntryModel>,
    hits: Seq<SearchHit>,
    weights: Seq<u64>,
    order: Seq<usize>,
    limit: usize,
    now: Timestamp,
) -> Seq<ResultModel> {
    Seq::new(
        if limit < order.len() {
            limit as nat
        } else {
            order.len()
        },
        |i: int|
            result_of(
                index[hits[order[i] as int].slot as int],
                weights[order[i] as int],
                now,
            ),
    )
}

/// `results` are the `limit` found pages with the greatest weights, or all if there are
/// fewer, from the greatest weight down; pages of equal weight in the order of `hits`.
pub open spec fn ranked(
    results: Seq<ResultModel>,
    index: Seq<EntryModel>,
    hits: Seq<SearchHit>,
    weights: Seq<u64>,
    limit: usize,
    now: Timestamp,
) -> bool {
    exists|order: Seq<usize>| #[trigger]
        crate::order::stably_sorts(inverted(weights), order) && results == in_order(
            index,
            hits,
            weights,
            order,
            limit,
            now,
        )
}

/// `results` are an answer to a search: the found pages, weighed by `weigh`, the `limit`
/// with the greatest weights.
pub open spec fn is_answer<F: Fn(&SearchHit) -> u64>(
    results: Seq<ResultModel>,
    index: Seq<EntryModel>,
    query: Seq<char>,
    limit: usize,
    now: Timestamp,
    weigh: F,
) -> bool {
    exists|hits: Seq<SearchHit>, weights: Seq<u64>|
        {
            &&& #[trigger] are_hits(hits, index, query_terms(query))
            &&& weights.len() == hits.len()
            &&& forall|i: int|
                0 <= i < hits.len() ==> call_ensures(weigh, (&hits[i],), #[trigger] weights[i])
            &&& #[trigger] ranked(results, index, hits, weights, limit, now)
        }
}

pub(crate) fn terms_of(query: &str) -> (terms: Vec<Vec<char>>)
    ensures
        crate::text::chars_views(terms@) == query_terms(query@),
        forall|i: int| 0 <= i < terms@.len() ==> (#[trigger] terms@[i])@.len() > 0,
{
    let chars = chars_of(query);
    let words = split_words(chars.as_slice());
    let mut terms: Vec<Vec<char>> = Vec::new();
    proof {
        crate::text::fields_are_full(query@, |c: char| crate::text::is_white(c));
    }
    let ghost all = crate::text::chars_views(words@);
    for i in 0..words.len()
        invariant
            all == crate::text::chars_views(words@),
            all == crate::text::words(query@),
            forall|j: int| 0 <= j < all.len() ==> (#[trigger] all[j]).len() > 0,
            terms.len() == i,
            forall|j: int|
                0 <= j < i ==> (#[trigger] terms@[j])@ == crate::text::lowercase(all[j])
                    && terms@[j]@.len() > 0,
    {
        let word = text_of(words[i].as_slice());
        assert(word@ == all[i as int]);
        let lower = to_lowercase(word.as_str());
        terms.push(chars_of(lower.as_str()));
    }
    assert(crate::text::chars_views(terms@) == query_terms(query@));
    terms
}

impl IndexEntry {
    fn counts(&self, terms: &Vec<Vec<char>>) -> (counts: Vec<usize>)
        requires
            forall|i: int| 0 <= i < terms@.len() ==> (#[trigger] terms@[i])@.len() > 0,
        ensures
            counts@.len() == terms@.len(),
            forall|i: int|
                0 <= i < terms@.len() ==> #[trigger] counts@[i] == term_counts(
                    self@,
                    crate::text::chars_views(terms@),
                )[i],
    {
        let mut text = to_lowercase(self.title.as_str());
        text.append(" ");
        text.append(to_lowercase(self.snippet.as_str()).as_str());
        text.append(" ");
        text.append(to_lowercase(self.domain.as_str()).as_str());
        assert(text@ == haystack(self@));
        let hay = chars_of(text.as_str());
        let mut counts: Vec<usize> = Vec::new();
        for i in 0..terms.len()
            invariant
                forall|j: int| 0 <= j < terms@.len() ==> (#[trigger] terms@[j])@.len() > 0,
                hay@ == haystack(self@),
                counts.len() == i,
                forall|j: int|
                    0 <= j < i ==> #[trigger] counts@[j] == term_counts(
                        self@,
                        crate::text::chars_views(terms@),
                    )[j],
        {
            counts.push(count_matches(hay.as_slice(), terms[i].as_slice()));
        }
        counts
    }
}

fn any_positive(counts: &Vec<usize>) -> (yes: bool)
    ensures
        yes == exists|i: int| 0 <= i < counts@.len() && #[trigger] counts@[i] > 0,
{
    for i in 0..counts.len()
        invariant
            forall|j: int| 0 <= j < i ==> #[trigger] counts@[j] == 0,
    {
        if counts[i] > 0 {
            return true;
        }
    }
    false
}

impl SearchIndex {
    /// The pages in which at least one word of the query stands, in the order of the
    /// index. A page of which nothing is known but a link is not found.
    pub fn find_hits(&self, query: &str) -> (hits: Vec<SearchHit>)
        ensures
            are_hits(hits@, self@, query_terms(query@)),
    {
        let terms = terms_of(query);
        let ghost views = query_terms(query@);
        let mut hits: Vec<SearchHit> = Vec::new();
        for n in 0..self.entries.len()
            invariant
                views == query_terms(query@),
                views == crate::text::chars_views(terms@),
                forall|j: int| 0 <= j < terms@.len() ==> (#[trigger] terms@[j])@.len() > 0,
                hits@.len() == found_slots(self@, views, n as int).len(),
                forall|i: int|
                    0 <= i < hits@.len() ==> (#[trigger] hits@[i]).slot == found_slots(
                        self@,
                        views,
                        n as int,
                    )[i] && tells(hits@[i], self@, views),
        {
            let entry = &self.entries[n];
            assert(entry@ == self@[n as int]);
            if entry.tier != Tier::Known || !entry.snippet.as_str().is_empty() {
                let counts = entry.counts(&terms);
                if any_positive(&counts) {
                    let ghost i = choose|i: int|
                        0 <= i < counts@.len() && #[trigger] counts@[i] > 0;
                    assert(term_counts(entry@, views)[i] > 0);
                    hits.push(SearchHit { slot: n, counts, tier: entry.tier, score: entry.score });
                } else {
                    assert forall|i: int| 0 <= i < views.len() implies #[trigger] term_counts(
                        entry@,
                        views,
                    )[i] == 0 by {
                        assert(counts@[i] == 0);
                    }
                }
            }
        }
        hits
    }

    /// The `limit` found pages with the greatest weights, from the greatest down.
    pub fn rank_hits(
        &self,
        hits: &Vec<SearchHit>,
        weights: &Vec<u64>,
        limit: usize,
        now: Timestamp,
    ) -> (results: Vec<SearchResult>)
        requires
            hits@.len() == weights@.len(),
            forall|i: int| 0 <= i < hits@.len() ==> (#[trigger] hits@[i]).slot < self@.len(),
        ensures
            ranked(result_views(results@), self@, hits@, weights@, limit, now),
    {
        let mut keys: Vec<u64> = Vec::new();
        for i in 0..weights.len()
            invariant
                keys.len() == i,
                forall|j: int| 0 <= j < i ==> #[trigger] keys@[j] == u64::MAX - weights@[j],
        {
            keys.push(u64::MAX - weights[i]);
        }
        assert(keys@ == inverted(weights@));
        let order = stable_order(&keys);
        let count: usize = if limit < order.len() {
            limit
        } else {
            order.len()
        };
        let mut results: Vec<SearchResult> = Vec::new();
        for i in 0..count
            invariant
                count <= order.len(),
                hits@.len() == weights@.len(),
                forall|j: int| 0 <= j < hits@.len() ==> (#[trigger] hits@[j]).slot < self@.len(),
                crate::order::stably_sorts(inverted(weights@), order@),
                results.len() == i,
                forall|j: int|
                    0 <= j < i ==> (#[trigger] results@[j])@ == result_of(
                        self@[hits@[order@[j] as int].slot as int],
                        weights@[order@[j] as int],
                        now,
                    ),
        {
            let place: usize = order[i];
            assert(hits@[place as int].slot < self@.len());
            let entry = &self.entries[hits[place].slot];
            results.push(
                SearchResult {
                    url: entry.url.clone(),
                    domain: entry.domain.clone(),
                    title: entry.title.clone(),
                    snippet: entry.snippet.clone(),
                    tier: entry.tier,
                    score: weights[place],
                    tags: copy_texts(&entry.tags),
                    age_secs: now.secs_since(&entry.last_seen),
                },
            );
        }
        assert(result_views(results@) == in_order(self@, hits@, weights@, order@, limit, now));
        results
    }

    /// Searches for the words of a query. `weigh` gives each page that is found its
    /// weight; the `limit` pages with the greatest weights come back, from the greatest
    /// down.
    pub fn search<F: Fn(&SearchHit) -> u64>(
        &self,
        query: &str,
        limit: usize,
        now: Timestamp,
        weigh: F,
    ) -> (results: Vec<SearchResult>)
        requires
            forall|hit: &SearchHit| call_requires(weigh, (hit,)),
        ensures
            is_answer(result_views(results@), self@, query@, limit, now, weigh),
    {
        let hits = self.find_hits(query);
        let mut weights: Vec<u64> = Vec::new();
        for i in 0..hits.len()
            invariant
                forall|hit: &SearchHit| call_requires(weigh, (hit,)),
                weights.len() == i,
                forall|j: int|
                    0 <= j < i ==> call_ensures(weigh, (&hits@[j],), #[trigger] weights@[j]),
        {
            weights.push(weigh(&hits[i]));
        }
        self.rank_hits(&hits, &weights, limit, now)
    }
}

/// A number as eight bytes, the lowest first.
pub open spec fn low_first(n: u64) -> Seq<u8> {
    seq![
        n as u8,
        (n >> 8) as u8,
        (n >> 16) as u8,
        (n >> 24) as u8,
        (n >> 32) as u8,
        (n >> 40) as u8,
        (n >> 48) as u8,
        (n >> 56) as u8,
    ]
}

/// A number that depends on a URL and a seed, and on nothing else, in no obvious way.
pub open spec fn shuffle_key(url: Seq<char>, seed: u64) -> u64 {
    DefaultHasher::spec_finish(seq![encode_utf8(url), seq![0xffu8], low_first(seed)])
}

fn key_for(url: &str, seed: u64) -> (key: u64)
    ensures
        key == shuffle_key(url@, seed),
{
    let mut hasher = DefaultHasher::new();
    hasher.write(url.as_bytes());
    let stop: Vec<u8> = vec![0xffu8];
    hasher.write(stop.as_slice());
    let bytes: Vec<u8> = vec![
        seed as u8,
        (seed >> 8) as u8,
        (seed >> 16) as u8,
        (seed >> 24) as u8,
        (seed >> 32) as u8,
        (seed >> 40) as u8,
        (seed >> 48) as u8,
        (seed >> 56) as u8,
    ];
    hasher.write(bytes.as_slice());
    assert(hasher@ =~= seq![encode_utf8(url@), stop@, bytes@]);
    assert(stop@ =~= seq![0xffu8]);
    assert(bytes@ =~= low_first(seed));
    hasher.finish()
}

/// A page that ought to be crawled: one of which only a link has been seen, or one that
/// was crawled more than three days ago.
pub open spec fn due(entry: EntryModel, now: Timestamp) -> bool {
    match entry.tier {
        Tier::Known => true,
        Tier::Indexed => now.total_nanos() - entry.last_seen.total_nanos() > THREE_DAYS_NANOS,
        Tier::Cached => false,
    }
}

/// Where among the first `n` pages those stand that ought to be crawled.
pub open spec fn due_slots(index: Seq<EntryModel>, now: Timestamp, n: int) -> Seq<int>
    decreases n,
{
    if n <= 0 {
        Seq::empty()
    } else if due(index[n - 1], now) {
        due_slots(index, now, n - 1).push(n - 1)
    } else {
        due_slots(index, now, n - 1)
    }
}

/// URL, title and snippet of a page.
pub open spec fn candidate_of(entry: EntryModel) -> (Seq<char>, Seq<char>, Seq<char>) {
    (entry.url, entry.title, entry.snippet)
}

/// What candidates hold.
pub open spec fn candidate_views(list: Seq<(String, String, String)>) -> Seq<
    (Seq<char>, Seq<char>, Seq<char>),
> {
    Seq::new(list.len(), |i: int| (list[i].0@, list[i].1@, list[i].2@))
}

/// The keys by which the pages at `slots` are shuffled.
pub open spec fn shuffle_keys(index: Seq<EntryModel>, slots: Seq<int>, seed: u64) -> Seq<u64> {
    Seq::new(slots.len(), |i: int| shuffle_key(index[slots[i]].url, seed))
}

/// The first `limit` of the pages at `slots` in the given order.
pub open spec fn first_in_order(
    index: Seq<EntryModel>,
    slots: Seq<int>,
    order: Seq<usize>,
    limit: usize,
) -> Seq<(Seq<char>, Seq<char>, Seq<char>)> {
    Seq::new(
        if limit < order.len() {
            limit as nat
        } else {
            order.len()
        },
        |i: int| candidate_of(index[slots[order[i] as int]]),
    )
}

/// `list` names the first `limit` of all pages that ought to be crawled, in the order of
/// their shuffle keys, or all if there are fewer.
pub open spec fn are_candidates(
    list: Seq<(Seq<char>, Seq<char>, Seq<char>)>,
    index: Seq<EntryModel>,
    now: Timestamp,
    limit: usize,
) -> bool {
    let slots = due_slots(index, now, index.len() as int);
    exists|order: Seq<usize>| #[trigger]
        crate::order::stably_sorts(shuffle_keys(index, slots, now.seed()), order) && list
            == first_in_order(index, slots, order, limit)
}

impl SearchIndex {
    /// Up to `limit` of the pages that ought to be crawled. All of them are put into an
    /// order that changes from one second to the next, and the first ones come back, so
    /// that not always the same pages come up.
    pub fn candidates_for_crawl(&self, limit: usize, now: Timestamp) -> (found: Vec<
        (String, String, String),
    >)
        ensures
            are_candidates(candidate_views(found@), self@, now, limit),
    {
        let seed: u64 = if now.secs < 0 {
            0
        } else {
            now.secs as u64
        };
        let mut slots: Vec<usize> = Vec::new();
        let mut keys: Vec<u64> = Vec::new();
        for n in 0..self.entries.len()
            invariant
                seed == now.seed(),
                slots@.len() == due_slots(self@, now, n as int).len(),
                keys@.len() == slots@.len(),
                forall|i: int|
                    0 <= i < slots@.len() ==> (#[trigger] slots@[i]) < self@.len() && slots@[i]
                        == due_slots(self@, now, n as int)[i],
                forall|i: int|
                    0 <= i < slots@.len() ==> #[trigger] keys@[i] == shuffle_key(
                        self@[slots@[i] as int].url,
                        seed,
                    ),
        {
            let entry = &self.entries[n];
            assert(entry@ == self@[n as int]);
            let wanted = match entry.tier {
                Tier::Known => true,
                Tier::Indexed => now.nanos_since(&entry.last_seen) > THREE_DAYS_NANOS,
                Tier::Cached => false,
            };
            if wanted {
                slots.push(n);
                keys.push(key_for(entry.url.as_str(), seed));
            }
        }
        let ghost places = due_slots(self@, now, self@.len() as int);
        assert(keys@ == shuffle_keys(self@, places, seed));
        let order = stable_order(&keys);
        let count: usize = if limit < order.len() {
            limit
        } else {
            order.len()
        };
        let mut found: Vec<(String, String, String)> = Vec::new();
        for i in 0..count
            invariant
                places == due_slots(self@, now, self@.len() as int),
                count <= order.len(),
                slots@.len() == places.len(),
                keys@.len() == slots@.len(),
                crate::order::stably_sorts(keys@, order@),
                forall|j: int|
                    0 <= j < slots@.len() ==> (#[trigger] slots@[j]) < self@.len() && slots@[j]
                        == places[j],
                found.len() == i,
                forall|j: int|
                    0 <= j < i ==> candidate_views(found@)[j] == candidate_of(
                        self@[places[#[trigger] order@[j] as int]],
                    ),
        {
            let place: usize = order[i];
            assert(slots@[place as int] < self@.len());
            let entry = &self.entries[slots[place]];
            let ghost before = candidate_views(found@);
            found.push((entry.url.clone(), entry.title.clone(), entry.snippet.clone()));
            assert(candidate_views(found@) == before.push(candidate_of(entry@)));
        }
        assert(candidate_views(found@) == first_in_order(self@, places, order@, limit));
        found
    }
}

/// One of the terms stands in the title or in the snippet, in lower case.
pub open spec fn mentions(title: Seq<char>, snippet: Seq<char>, terms: Seq<Seq<char>>) -> bool {
    exists|k: int|
        0 <= k < terms.len() && (crate::text::occurs(
            crate::text::lowercase(title),
            #[trigger] terms[k],
        ) || crate::text::occurs(crate::text::lowercase(snippet), terms[k]))
}

/// Whether a word of the query stands in the title or in the snippet, in whatever case.
pub fn matches_query(query: &str, title: &str, snippet: &str) -> (yes: bool)
    ensures
        yes == mentions(title@, snippet@, query_terms(query@)),
{
    let terms = terms_of(query);
    let ghost views = query_terms(query@);
    let lower_title = chars_of(to_lowercase(title).as_str());
    let lower_snippet = chars_of(to_lowercase(snippet).as_str());
    assert(lower_title@ == crate::text::lowercase(title@));
    assert(lower_snippet@ == crate::text::lowercase(snippet@));
    for k in 0..terms.len()
        invariant
            views == query_terms(query@),
            views == crate::text::chars_views(terms@),
            lower_title@ == crate::text::lowercase(title@),
            lower_snippet@ == crate::text::lowercase(snippet@),
            forall|j: int|
                0 <= j < k ==> !crate::text::occurs(lower_title@, #[trigger] views[j])
                    && !crate::text::occurs(lower_snippet@, views[j]),
    {
        assert(views[k as int] == terms@[k as int]@);
        if holds(lower_title.as_slice(), terms[k].as_slice()) || holds(
            lower_snippet.as_slice(),
            terms[k].as_slice(),
        ) {
            return true;
        }
    }
    false
}

fn holds(hay: &[char], needle: &[char]) -> (yes: bool)
    ensures
        yes == crate::text::occurs(hay@, needle@),
{
    match find_from(hay, needle, 0) {
        Some(at) => {
            assert(crate::text::occurs_at(hay@, needle@, at as int));
            true
        },
        None => false,
    }
}

/// A cached page stays in the cache and every score stays at least as high, whatever
/// news comes of any page.
pub proof fn news_never_demotes(index: Seq<EntryModel>, news: EntryModel, i: int)
    requires
        distinct_urls(index),
        0 <= i < index.len(),
    ensures
        upserted(index, news).len() >= index.len(),
        upserted(index, news)[i].url == index[i].url,
        upserted(index, news)[i].score >= index[i].score,
        index[i].tier == Tier::Cached ==> upserted(index, news)[i].tier == Tier::Cached,
        index[i].url != news.url ==> upserted(index, news)[i] == index[i],
{
    slot_is_sound(index, news.url);
}

/// A link lowers no score and changes no tier of a page that is in the index.
pub proof fn links_never_demote(
    index: Seq<EntryModel>,
    url: Seq<char>,
    domain: Seq<char>,
    anchor_text: Seq<char>,
    now: Timestamp,
    i: int,
)
    requires
        distinct_urls(index),
        0 <= i < index.len(),
    ensures
        with_link(index, url, domain, anchor_text, now).len() >= index.len(),
        with_link(index, url, domain, anchor_text, now)[i].score >= index[i].score,
        with_link(index, url, domain, anchor_text, now)[i].tier == index[i].tier,
{
    slot_is_sound(index, url);
}

/// After a page has gone into the cache, the index says so if it has the page, and news
/// of the page does not take that back.
pub proof fn cached_stays_cached(index: Seq<EntryModel>, url: Seq<char>, news: EntryModel)
    requires
        distinct_urls(index),
        slot_of(index, url) is Some,
    ensures
        ({
            let after = upserted(with_cached(index, url), news);
            slot_of(after, url) is Some && after[slot_of(after, url)->0].tier == Tier::Cached
        }),
{
    slot_is_sound(index, url);
    let slot = slot_of(index, url)->0;
    let marked = with_cached(index, url);
    assert forall|i: int| 0 <= i < index.len() implies (#[trigger] marked[i]).url
        == index[i].url by {}
    assert forall|i: int, j: int| 0 <= i < j < marked.len() implies (#[trigger] marked[i]).url != (
    #[trigger] marked[j]).url by {
        assert(index[i].url != index[j].url);
    }
    slot_is_sound(marked, news.url);
    let after = upserted(marked, news);
    news_never_demotes(marked, news, slot);
    slot_is_sound(after, url);
    let found = slot_of(after, url)->0;
    if found != slot {
        if found < marked.len() {
            news_never_demotes(marked, news, found);
            if found < slot {
                assert(marked[found].url != marked[slot].url);
            } else {
                assert(marked[slot].url != marked[found].url);
            }
        } else {
            assert(marked[slot].url != news.url);
        }
    }
}

/// No two entries of an index have the same URL, whatever news comes.
pub proof fn news_keeps_urls_distinct(index: Seq<EntryModel>, news: EntryModel)
    requires
        distinct_urls(index),
    ensures
        distinct_urls(upserted(index, news)),
        slot_of(upserted(index, news), news.url) is Some,
{
    slot_is_sound(index, news.url);
    let after = upserted(index, news);
    assert forall|i: int, j: int| 0 <= i < j < after.len() implies (#[trigger] after[i]).url != (
    #[trigger] after[j]).url by {
        if j < index.len() {
            assert(index[i].url != index[j].url);
        } else {
            assert(index[i].url != news.url);
        }
    }
    slot_is_sound(after, news.url);
    match slot_of(index, news.url) {
        Some(slot) => assert(after[slot].url == news.url),
        None => assert(after[index.len() as int].url == news.url),
    }
}

/// What is in the index of a page after news of it is what the news says.
pub proof fn news_is_found_again(index: Seq<EntryModel>, news: EntryModel)
    requires
        distinct_urls(index),
    ensures
        ({
            let after = upserted(index, news);
            let entry = after[slot_of(after, news.url)->0];
            &&& slot_of(after, news.url) is Some
            &&& entry.url == news.url
            &&& entry.domain == news.domain
            &&& entry.title == news.title
            &&& entry.snippet == news.snippet
            &&& entry.last_seen == news.last_seen
            &&& entry.tags == news.tags
            &&& entry.score >= news.score
        }),
{
    news_keeps_urls_distinct(index, news);
    slot_is_sound(index, news.url);
    match slot_of(index, news.url) {
        Some(slot) => slot_is_unique(upserted(index, news), slot),
        None => slot_is_unique(upserted(index, news), index.len() as int),
    }
}

proof fn found_slots_are_found(index: Seq<EntryModel>, terms: Seq<Seq<char>>, n: int, i: int)
    requires
        0 <= n <= index.len(),
        0 <= i < index.len(),
    ensures
        found_slots(index, terms, n).contains(i) <==> i < n && found_by(index[i], terms),
    decreases n,
{
    if n > 0 {
        found_slots_are_found(index, terms, n - 1, i);
        let before = found_slots(index, terms, n - 1);
        let all = found_slots(index, terms, n);
        if before.contains(i) {
            let k = choose|k: int| 0 <= k < before.len() && before[k] == i;
            assert(all[k] == i);
        }
        if found_by(index[n - 1], terms) {
            assert(all[all.len() - 1] == n - 1);
        }
        if all.contains(i) && i != n - 1 {
            let k = choose|k: int| 0 <= k < all.len() && all[k] == i;
            assert(before[k] == i);
        }
    }
}

/// A search finds a page exactly if one of the terms stands in its title, its snippet or
/// its domain, in lower case, unless nothing is known of the page but a link.
pub proof fn search_finds_what_holds_a_term(
    index: Seq<EntryModel>,
    terms: Seq<Seq<char>>,
    i: int,
)
    requires
        0 <= i < index.len(),
    ensures
        found_slots(index, terms, index.len() as int).contains(i) <==> searchable(index[i])
            && exists|k: int|
            0 <= k < terms.len() && crate::text::occurs(
                haystack(index[i]),
                #[trigger] terms[k],
            ),
{
    found_slots_are_found(index, terms, index.len() as int, i);
    assert forall|k: int| 0 <= k < terms.len() implies (#[trigger] term_counts(
        index[i],
        terms,
    )[k] > 0 <==> crate::text::occurs(haystack(index[i]), terms[k])) by {
        crate::text::match_count_is_positive(haystack(index[i]), terms[k]);
    }
    if found_by(index[i], terms) {
        let k = choose|k: int| 0 <= k < terms.len() && #[trigger] term_counts(index[i], terms)[k]
            > 0;
        assert(crate::text::occurs(haystack(index[i]), terms[k]));
    }
    if exists|k: int|
        0 <= k < terms.len() && crate::text::occurs(haystack(index[i]), #[trigger] terms[k]) {
        let k = choose|k: int|
            0 <= k < terms.len() && crate::text::occurs(haystack(index[i]), #[trigger] terms[k]);
        assert(term_counts(index[i], terms)[k] > 0);
    }
}

/// An index that is kept as a list and loaded again is the same.
pub proof fn saved_index_reloads(index: Seq<EntryModel>)
    requires
        distinct_urls(index),
    ensures
        loaded(index) == index,
    decreases index.len(),
{
    if index.len() > 0 {
        let front = index.drop_last();
        assert forall|i: int, j: int| 0 <= i < j < front.len() implies (#[trigger] front[i]).url
            != (#[trigger] front[j]).url by {
            assert(index[i].url != index[j].url);
        }
        saved_index_reloads(front);
        slot_is_sound(front, index.last().url);
        if let Some(slot) = slot_of(front, index.last().url) {
            assert(index[slot].url != index[index.len() - 1].url);
        }
        assert(front.push(index.last()) == index);
    }
}

pub(crate) proof fn due_slots_are_due(index: Seq<EntryModel>, now: Timestamp, n: int)
    requires
        0 <= n <= index.len(),
    ensures
        forall|i: int|
            0 <= i < due_slots(index, now, n).len() ==> 0 <= #[trigger] due_slots(index, now, n)[i]
                < n && due(index[due_slots(index, now, n)[i]], now),
        forall|i: int, j: int|
            0 <= i < j < due_slots(index, now, n).len() ==> #[trigger] due_slots(index, now, n)[i]
                < #[trigger] due_slots(index, now, n)[j],
    decreases n,
{
    if n > 0 {
        due_slots_are_due(index, now, n - 1);
        let before = due_slots(index, now, n - 1);
        let all = due_slots(index, now, n);
        assert forall|i: int| 0 <= i < all.len() implies 0 <= #[trigger] all[i] < n && due(
            index[all[i]],
            now,
        ) by {
            if i < before.len() {
                assert(before[i] < n - 1);
            }
        }
        assert forall|i: int, j: int| 0 <= i < j < all.len() implies #[trigger] all[i]
            < #[trigger] all[j] by {
            if j < before.len() {
                assert(before[i] < before[j]);
            } else {
                assert(before[i] < n - 1);
            }
        }
    }
}

/// The candidate is a page of the index that ought to be crawled.
pub open spec fn is_due_page(
    candidate: (Seq<char>, Seq<char>, Seq<char>),
    index: Seq<EntryModel>,
    now: Timestamp,
) -> bool {
    exists|slot: int|
        0 <= slot < index.len() && due(#[trigger] index[slot], now) && candidate == candidate_of(
            index[slot],
        )
}

/// What comes up for crawling are as many pages as asked for, or all that ought to be
/// crawled if there are fewer, and only such: no cached page, and no page that was crawled
/// within three days. None comes up twice.
pub proof fn candidates_are_due(
    list: Seq<(Seq<char>, Seq<char>, Seq<char>)>,
    index: Seq<EntryModel>,
    now: Timestamp,
    limit: usize,
)
    requires
        distinct_urls(index),
        are_candidates(list, index, now, limit),
    ensures
        list.len() == if limit < due_slots(index, now, index.len() as int).len() {
            limit as nat
        } else {
            due_slots(index, now, index.len() as int).len()
        },
        forall|i: int| 0 <= i < list.len() ==> is_due_page(#[trigger] list[i], index, now),
        forall|i: int, j: int|
            0 <= i < j < list.len() ==> (#[trigger] list[i]).0 != (#[trigger] list[j]).0,
{
    due_slots_are_due(index, now, index.len() as int);
    let slots = due_slots(index, now, index.len() as int);
    let keys = shuffle_keys(index, slots, now.seed());
    let order = choose|order: Seq<usize>| #[trigger]
        crate::order::stably_sorts(keys, order) && list == first_in_order(
            index,
            slots,
            order,
            limit,
        );
    assert forall|i: int| 0 <= i < list.len() implies is_due_page(
        #[trigger] list[i],
        index,
        now,
    ) by {
        let slot = slots[order[i] as int];
        assert(order[i] < slots.len());
        assert(due(index[slot], now));
        assert(list[i] == candidate_of(index[slot]));
    }
    assert forall|i: int, j: int| 0 <= i < j < list.len() implies (#[trigger] list[i]).0 != (
    #[trigger] list[j]).0 by {
        let a = order[i] as int;
        let b = order[j] as int;
        assert(crate::order::precedes(keys, a, b));
        assert(list[i] == candidate_of(index[slots[a]]));
        assert(list[j] == candidate_of(index[slots[b]]));
        if a < b {
            assert(slots[a] < slots[b]);
            assert(index[slots[a]].url != index[slots[b]].url);
        } else {
            assert(slots[b] < slots[a]);
            assert(index[slots[b]].url != index[slots[a]].url);
        }
    }
}

/// The page at `slot` comes up first: it ought to be crawled, and of all such pages it has
/// the least shuffle key of the second. Of pages with equal keys the earlier one counts.
pub open spec fn comes_first(index: Seq<EntryModel>, now: Timestamp, slot: int) -> bool {
    &&& 0 <= slot < index.len()
    &&& due(index[slot], now)
    &&& forall|other: int|
        0 <= other < index.len() && other != slot && due(#[trigger] index[other], now) ==> {
            let key = shuffle_key(index[slot].url, now.seed());
            let other_key = shuffle_key(index[other].url, now.seed());
            key < other_key || (key == other_key && slot < other)
        }
}

proof fn due_pages_have_slots(index: Seq<EntryModel>, now: Timestamp, n: int, slot: int) -> (at: int)
    requires
        0 <= slot < n <= index.len(),
        due(index[slot], now),
    ensures
        0 <= at < due_slots(index, now, n).len(),
        due_slots(index, now, n)[at] == slot,
    decreases n,
{
    if slot == n - 1 {
        due_slots(index, now, n).len() - 1
    } else {
        due_pages_have_slots(index, now, n - 1, slot)
    }
}

/// What comes up for crawling begins with the page that has the least shuffle key of the
/// second, however few pages are asked for.
pub proof fn least_key_comes_up_first(
    list: Seq<(Seq<char>, Seq<char>, Seq<char>)>,
    index: Seq<EntryModel>,
    now: Timestamp,
    limit: usize,
    slot: int,
)
    requires
        are_candidates(list, index, now, limit),
        limit > 0,
        comes_first(index, now, slot),
    ensures
        list.len() > 0,
        list[0] == candidate_of(index[slot]),
{
    let n = index.len() as int;
    let slots = due_slots(index, now, n);
    let keys = shuffle_keys(index, slots, now.seed());
    due_slots_are_due(index, now, n);
    let at = due_pages_have_slots(index, now, n, slot);
    let order = choose|order: Seq<usize>| #[trigger]
        crate::order::stably_sorts(keys, order) && list == first_in_order(
            index,
            slots,
            order,
            limit,
        );
    assert(crate::order::listed(order, at));
    let i = choose|i: int| 0 <= i < order.len() && #[trigger] order[i] == at;
    let first = order[0] as int;
    if i != 0 {
        assert(crate::order::precedes(keys, first, at));
        let other = slots[first];
        assert(due(index[other], now));
        if first < at {
            assert(slots[first] < slots[at]);
        } else {
            assert(slots[at] < slots[first]);
        }
        assert(keys[first] == shuffle_key(index[other].url, now.seed()));
        assert(keys[at] == shuffle_key(index[slot].url, now.seed()));
    }
}

/// Not always the same page comes up: where the least shuffle keys of two seconds belong
/// to different pages, different pages come up first then, and only then.
pub proof fn pages_take_turns(
    list: Seq<(Seq<char>, Seq<char>, Seq<char>)>,
    other_list: Seq<(Seq<char>, Seq<char>, Seq<char>)>,
    index: Seq<EntryModel>,
    now: Timestamp,
    other: Timestamp,
    limit: usize,
    slot: int,
    other_slot: int,
)
    requires
        distinct_urls(index),
        are_candidates(list, index, now, limit),
        are_candidates(other_list, index, other, limit),
        limit > 0,
        comes_first(index, now, slot),
        comes_first(index, other, other_slot),
    ensures
        list.len() > 0,
        other_list.len() > 0,
        list[0].0 != other_list[0].0 <==> slot != other_slot,
{
    least_key_comes_up_first(list, index, now, limit, slot);
    least_key_comes_up_first(other_list, index, other, limit, other_slot);
    if slot < other_slot {
        assert(index[slot].url != index[other_slot].url);
    } else if other_slot < slot {
        assert(index[other_slot].url != index[slot].url);
    }
}

/// An answer has no more pages than asked for, and no page comes before one of greater
/// weight.
pub proof fn answers_come_best_first(
    results: Seq<ResultModel>,
    index: Seq<EntryModel>,
    hits: Seq<SearchHit>,
    weights: Seq<u64>,
    limit: usize,
    now: Timestamp,
)
    requires
        ranked(results, index, hits, weights, limit, now),
    ensures
        results.len() <= limit,
        forall|i: int, j: int|
            0 <= i < j < results.len() ==> (#[trigger] results[i]).score >= (
            #[trigger] results[j]).score,
{
    let order = choose|order: Seq<usize>| #[trigger]
        crate::order::stably_sorts(inverted(weights), order) && results == in_order(
            index,
            hits,
            weights,
            order,
            limit,
            now,
        );
    assert forall|i: int, j: int| 0 <= i < j < results.len() implies (#[trigger] results[i]).score
        >= (#[trigger] results[j]).score by {
        assert(crate::order::precedes(inverted(weights), order[i] as int, order[j] as int));
    }
}

/// What `weigh` gives depends on the found page alone: it is its `weight`.
pub open spec fn weighed_by<F: Fn(&SearchHit) -> u64>(
    weigh: F,
    weight: spec_fn(HitModel) -> u64,
) -> bool {
    forall|hit: &SearchHit, found: u64| #[trigger]
        call_ensures(weigh, (hit,), found) ==> found == weight(hit@)
}

proof fn hits_are_fixed(
    a: Seq<SearchHit>,
    b: Seq<SearchHit>,
    index: Seq<EntryModel>,
    terms: Seq<Seq<char>>,
)
    requires
        are_hits(a, index, terms),
        are_hits(b, index, terms),
    ensures
        a.len() == b.len(),
        forall|i: int| 0 <= i < a.len() ==> (#[trigger] a[i])@ == b[i]@,
{
    assert forall|i: int| 0 <= i < a.len() implies (#[trigger] a[i])@ == b[i]@ by {
        assert(tells(a[i], index, terms));
        assert(tells(b[i], index, terms));
        assert(a[i].counts@ =~= b[i].counts@);
    }
}

/// A smaller limit gives the beginning of the same answer, as long as the index does not
/// change: the same pages in the same order, and, at the same moment, the same results.
pub proof fn smaller_limits_give_beginnings<F: Fn(&SearchHit) -> u64>(
    weigh: F,
    weight: spec_fn(HitModel) -> u64,
    index: Seq<EntryModel>,
    query: Seq<char>,
    less: usize,
    more: usize,
    short: Seq<ResultModel>,
    long: Seq<ResultModel>,
    now: Timestamp,
    later: Timestamp,
)
    requires
        weighed_by(weigh, weight),
        less <= more,
        is_answer(short, index, query, less, now, weigh),
        is_answer(long, index, query, more, later, weigh),
    ensures
        short.len() == if less < long.len() {
            less as nat
        } else {
            long.len()
        },
        forall|i: int| 0 <= i < short.len() ==> (#[trigger] short[i]).url == long[i].url,
        now == later ==> short == long.take(short.len() as int),
{
    let terms = query_terms(query);
    let (a, v) = choose|hits: Seq<SearchHit>, weights: Seq<u64>|
        {
            &&& #[trigger] are_hits(hits, index, terms)
            &&& weights.len() == hits.len()
            &&& forall|i: int|
                0 <= i < hits.len() ==> call_ensures(weigh, (&hits[i],), #[trigger] weights[i])
            &&& #[trigger] ranked(short, index, hits, weights, less, now)
        };
    let (b, w) = choose|hits: Seq<SearchHit>, weights: Seq<u64>|
        {
            &&& #[trigger] are_hits(hits, index, terms)
            &&& weights.len() == hits.len()
            &&& forall|i: int|
                0 <= i < hits.len() ==> call_ensures(weigh, (&hits[i],), #[trigger] weights[i])
            &&& #[trigger] ranked(long, index, hits, weights, more, later)
        };
    hits_are_fixed(a, b, index, terms);
    assert forall|i: int| 0 <= i < v.len() implies #[trigger] v[i] == w[i] by {
        assert(call_ensures(weigh, (&a[i],), v[i]));
        assert(call_ensures(weigh, (&b[i],), w[i]));
        assert(a[i]@ == b[i]@);
    }
    assert(v == w);
    let keys = inverted(v);
    let x = choose|order: Seq<usize>| #[trigger]
        crate::order::stably_sorts(keys, order) && short == in_order(
            index,
            a,
            v,
            order,
            less,
            now,
        );
    let y = choose|order: Seq<usize>| #[trigger]
        crate::order::stably_sorts(keys, order) && long == in_order(
            index,
            b,
            w,
            order,
            more,
            later,
        );
    crate::order::stable_order_is_unique(keys, x, y);
    assert forall|i: int| 0 <= i < short.len() implies (#[trigger] short[i]).url == long[i].url && (
    now == later ==> short[i] == long[i]) by {
        assert(x[i] < keys.len());
        assert(a[x[i] as int]@ == b[y[i] as int]@);
    }
    if now == later {
        assert(short == long.take(short.len() as int));
    }
}

pub(crate) proof fn found_slots_rise(index: Seq<EntryModel>, terms: Seq<Seq<char>>, n: int)
    requires
        0 <= n <= index.len(),
    ensures
        forall|i: int|
            0 <= i < found_slots(index, terms, n).len() ==> 0 <= #[trigger] found_slots(
                index,
                terms,
                n,
            )[i] < n,
        forall|i: int, j: int|
            0 <= i < j < found_slots(index, terms, n).len() ==> #[trigger] found_slots(
                index,
                terms,
                n,
            )[i] < #[trigger] found_slots(index, terms, n)[j],
    decreases n,
{
    if n > 0 {
        found_slots_rise(index, terms, n - 1);
        let before = found_slots(index, terms, n - 1);
        let all = found_slots(index, terms, n);
        assert forall|i: int| 0 <= i < all.len() implies 0 <= #[trigger] all[i] < n by {
            if i < before.len() {
                assert(before[i] < n - 1);
            }
        }
        assert forall|i: int, j: int| 0 <= i < j < all.len() implies #[trigger] all[i]
            < #[trigger] all[j] by {
            if j < before.len() {
                assert(before[i] < before[j]);
            } else {
                assert(before[i] < n - 1);
            }
        }
    }
}

/// A page with this URL is in the answer.
pub open spec fn answers_with(results: Seq<ResultModel>, url: Seq<char>) -> bool {
    exists|i: int| 0 <= i < results.len() && (#[trigger] results[i]).url == url
}

/// An answer whose limit is high enough lists every page that the search finds, each once,
/// and no other page.
pub proof fn every_match_is_listed_once<F: Fn(&SearchHit) -> u64>(
    weigh: F,
    index: Seq<EntryModel>,
    query: Seq<char>,
    limit: usize,
    results: Seq<ResultModel>,
    now: Timestamp,
)
    requires
        distinct_urls(index),
        is_answer(results, index, query, limit, now, weigh),
        limit >= found_slots(index, query_terms(query), index.len() as int).len(),
    ensures
        results.len() == found_slots(index, query_terms(query), index.len() as int).len(),
        forall|slot: int|
            0 <= slot < index.len() ==> (answers_with(results, (#[trigger] index[slot]).url)
                <==> found_by(index[slot], query_terms(query))),
        forall|i: int, j: int|
            0 <= i < j < results.len() ==> (#[trigger] results[i]).url != (
            #[trigger] results[j]).url,
{
    let terms = query_terms(query);
    let slots = found_slots(index, terms, index.len() as int);
    found_slots_rise(index, terms, index.len() as int);
    let (hits, weights) = choose|hits: Seq<SearchHit>, weights: Seq<u64>|
        {
            &&& #[trigger] are_hits(hits, index, terms)
            &&& weights.len() == hits.len()
            &&& forall|i: int|
                0 <= i < hits.len() ==> call_ensures(weigh, (&hits[i],), #[trigger] weights[i])
            &&& #[trigger] ranked(results, index, hits, weights, limit, now)
        };
    let keys = inverted(weights);
    let order = choose|order: Seq<usize>| #[trigger]
        crate::order::stably_sorts(keys, order) && results == in_order(
            index,
            hits,
            weights,
            order,
            limit,
            now,
        );
    assert forall|i: int| 0 <= i < results.len() implies (#[trigger] results[i]).url
        == index[slots[order[i] as int]].url && 0 <= order[i] < slots.len() by {
        assert(hits[order[i] as int].slot == slots[order[i] as int]);
    }
    assert forall|i: int, j: int| 0 <= i < j < results.len() implies (#[trigger] results[i]).url
        != (#[trigger] results[j]).url by {
        let a = order[i] as int;
        let b = order[j] as int;
        assert(crate::order::precedes(keys, a, b));
        if a < b {
            assert(slots[a] < slots[b]);
            assert(index[slots[a]].url != index[slots[b]].url);
        } else {
            assert(slots[b] < slots[a]);
            assert(index[slots[b]].url != index[slots[a]].url);
        }
    }
    assert forall|slot: int| 0 <= slot < index.len() implies (answers_with(
        results,
        (#[trigger] index[slot]).url,
    ) <==> found_by(index[slot], terms)) by {
        found_slots_are_found(index, terms, index.len() as int, slot);
        if answers_with(results, index[slot].url) {
            let i = choose|i: int|
                0 <= i < results.len() && (#[trigger] results[i]).url == index[slot].url;
            let other = slots[order[i] as int];
            if other < slot {
                assert(index[other].url != index[slot].url);
            } else if slot < other {
                assert(index[slot].url != index[other].url);
            }
            assert(slots.contains(slot));
        }
        if slots.contains(slot) {
            let p = choose|p: int| 0 <= p < slots.len() && slots[p] == slot;
            assert(crate::order::listed(order, p));
            let i = choose|i: int| 0 <= i < order.len() && order[i] == p;
            assert(results[i].url == index[slot].url);
        }
    }
}

} // verus!
