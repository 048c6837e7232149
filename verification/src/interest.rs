//! What the user is interested in: the words of searches and of visited pages, and the
//! domains of visited pages, each with a weight.
//!
//! Weights are counted in tenths of a hit: a word of a search weighs ten tenths, a word
//! in the title of a visited page three, a visit to a domain ten. A candidate's score
//! is counted in twentieths of a point: three points for each hit of its domain, two
//! for each hit of a word in its title, half a point for each hit of a word in its
//! snippet.
use dashmap::DashMap;
use vstd::prelude::*;
use vstd::utf8::encode_utf8;

use crate::store::store_get;
use crate::store::store_insert;
use crate::store::store_len;
use crate::store::store_list;
use crate::store::store_new;
use crate::store::stored;
use crate::store::top_of;
use crate::text::begins_with;
use crate::text::chars_of;
use crate::text::same_text;
use crate::text::split_fields;
use crate::text::text_of;
use crate::text::to_lowercase;
use crate::web::host_of;

verus! {

/// Words too common to say anything of an interest.
pub open spec fn stopwords() -> Seq<Seq<char>> {
    seq![
        "the"@,
        "and"@,
        "for"@,
        "are"@,
        "but"@,
        "not"@,
        "you"@,
        "all"@,
        "can"@,
        "had"@,
        "her"@,
        "was"@,
        "one"@,
        "our"@,
        "out"@,
        "day"@,
        "get"@,
        "has"@,
        "him"@,
        "his"@,
        "how"@,
        "its"@,
        "let"@,
        "may"@,
        "new"@,
        "now"@,
        "old"@,
        "see"@,
        "two"@,
        "way"@,
        "who"@,
        "boy"@,
        "did"@,
        "does"@,
        "don"@,
        "got"@,
        "put"@,
        "say"@,
        "she"@,
        "too"@,
        "use"@,
        "from"@,
        "have"@,
        "that"@,
        "this"@,
        "with"@,
        "will"@,
        "been"@,
        "into"@,
        "just"@,
        "like"@,
        "more"@,
        "over"@,
        "such"@,
        "than"@,
        "them"@,
        "then"@,
        "they"@,
        "want"@,
        "were"@,
        "what"@,
        "when"@,
        "your"@,
    ]
}

fn stopword_list() -> (list: Vec<&'static str>)
    ensures
        crate::text::str_texts(list@) == stopwords(),
{
    let list: Vec<&'static str> = vec![
        "the",
        "and",
        "for",
        "are",
        "but",
        "not",
        "you",
        "all",
        "can",
        "had",
        "her",
        "was",
        "one",
        "our",
        "out",
        "day",
        "get",
        "has",
        "him",
        "his",
        "how",
        "its",
        "let",
        "may",
        "new",
        "now",
        "old",
        "see",
        "two",
        "way",
        "who",
        "boy",
        "did",
        "does",
        "don",
        "got",
        "put",
        "say",
        "she",
        "too",
        "use",
        "from",
        "have",
        "that",
        "this",
        "with",
        "will",
        "been",
        "into",
        "just",
        "like",
        "more",
        "over",
        "such",
        "than",
        "them",
        "then",
        "they",
        "want",
        "were",
        "what",
        "when",
        "your",
    ];
    list
}

/// The word is a stopword.
pub open spec fn stopword(word: Seq<char>) -> bool {
    stopwords().contains(word)
}

/// Whether a word is a stopword.
pub fn is_stopword(word: &str) -> (yes: bool)
    ensures
        yes == stopword(word@),
{
    let list = stopword_list();
    for i in 0..list.len()
        invariant
            crate::text::str_texts(list@) == stopwords(),
            forall|j: int| 0 <= j < i ==> #[trigger] stopwords()[j] != word@,
    {
        assert(list@[i as int]@ == stopwords()[i as int]);
        if same_text(word, list[i]) {
            return true;
        }
    }
    false
}

/// The words among the runs that count: longer than three bytes and, in lower case, no
/// stopwords.
pub open spec fn telling(runs: Seq<Seq<char>>) -> Seq<Seq<char>>
    decreases runs.len(),
{
    if runs.len() == 0 {
        Seq::empty()
    } else {
        let before = telling(runs.drop_last());
        let word = crate::text::lowercase(runs.last());
        if encode_utf8(runs.last()).len() > 3 && !stopword(word) {
            before.push(word)
        } else {
            before
        }
    }
}

/// The words of a text that count: its runs of letters and digits that are longer than
/// three bytes, in lower case, without stopwords.
pub open spec fn tokens(text: Seq<char>) -> Seq<Seq<char>> {
    telling(crate::text::fields(text, |c: char| !crate::text::alphanumeric(c)))
}

/// The words of a text that count.
pub fn tokenize(text: &str) -> (found: Vec<String>)
    ensures
        crate::text::texts(found@) == tokens(text@),
{
    let chars = chars_of(text);
    let separates = |c: char| -> (yes: bool)
        ensures
            yes == !crate::text::alphanumeric(c),
        {
            !c.is_alphanumeric()
        };
    let runs = split_fields(
        chars.as_slice(),
        separates,
        Ghost(|c: char| !crate::text::alphanumeric(c)),
    );
    let ghost all = crate::text::chars_views(runs@);
    let mut found: Vec<String> = Vec::new();
    for i in 0..runs.len()
        invariant
            all == crate::text::chars_views(runs@),
            crate::text::texts(found@) == telling(all.take(i as int)),
    {
        let run = text_of(runs[i].as_slice());
        assert(all.take(i + 1).drop_last() == all.take(i as int));
        assert(all.take(i + 1).last() == run@);
        let ghost before = crate::text::texts(found@);
        if run.as_str().as_bytes().len() > 3 {
            let word = to_lowercase(run.as_str());
            if !is_stopword(word.as_str()) {
                found.push(word);
                assert(crate::text::texts(found@) == before.push(word@));
            }
        }
    }
    assert(all.take(all.len() as int) == all);
    found
}

/// `host` without any `www.` in front.
pub open spec fn without_www(host: Seq<char>) -> Seq<char>
    decreases host.len(),
{
    if host.len() >= 4 && host.take(4) == "www."@ {
        without_www(host.skip(4))
    } else {
        host
    }
}

/// The domain of a URL: its host without any `www.` in front.
pub open spec fn domain_of(url: Seq<char>) -> Option<Seq<char>> {
    match crate::web::url_host(url) {
        Some(host) => Some(without_www(host)),
        None => None,
    }
}

/// `host` without any `www.` in front.
pub fn trim_www(host: &str) -> (rest: String)
    ensures
        rest@ == without_www(host@),
{
    let chars = chars_of(host);
    let mut from: usize = 0;
    proof {
        reveal_strlit("www.");
        assert(host@.skip(0) == host@);
    }
    loop
        invariant
            "www."@.len() == 4,
            chars@ == host@,
            from <= chars.len(),
            without_www(host@) == without_www(host@.skip(from as int)),
        decreases chars.len() - from,
    {
        let rest = vstd::slice::slice_subrange(chars.as_slice(), from, chars.len());
        assert(rest@ == host@.skip(from as int));
        if !begins_with(rest, "www.") {
            return text_of(rest);
        }
        assert(rest@.skip(4) == host@.skip(from + 4));
        from = from + 4;
    }
}

/// The domain of a URL: its host without any `www.` in front.
pub fn extract_domain(url: &str) -> (domain: Option<String>)
    ensures
        crate::web::opt_text(domain) == domain_of(url@),
{
    match host_of(url) {
        Some(host) => Some(trim_www(host.as_str())),
        None => None,
    }
}

/// The weight of a search word, and of a visit to a domain, in tenths of a hit.
pub const HIT: u64 = 10;

/// The weight of a word in the title of a visited page, in tenths of a hit.
pub const TITLE_HIT: u64 = 3;

/// A number, or the greatest that 64 bits hold if it is greater.
pub open spec fn capped(value: int) -> u64 {
    if value > u64::MAX {
        u64::MAX
    } else {
        value as u64
    }
}

/// The weights after each of `words`, one after the other, has been added `weight`.
pub open spec fn bumped(
    weights: Map<Seq<char>, u64>,
    words: Seq<Seq<char>>,
    weight: u64,
) -> Map<Seq<char>, u64>
    decreases words.len(),
{
    if words.len() == 0 {
        weights
    } else {
        let before = bumped(weights, words.drop_last(), weight);
        before.insert(words.last(), capped(crate::store::held(before, words.last()) + weight))
    }
}

/// The weights of `words`, added up.
pub open spec fn weight_sum(weights: Map<Seq<char>, u64>, words: Seq<Seq<char>>) -> nat
    decreases words.len(),
{
    if words.len() == 0 {
        0
    } else {
        weight_sum(weights, words.drop_last()) + crate::store::held(weights, words.last()) as nat
    }
}

/// What an interest graph holds.
#[verifier::ext_equal]
pub struct InterestModel {
    /// The weight of each word.
    pub terms: Map<Seq<char>, u64>,
    /// The weight of each domain.
    pub domains: Map<Seq<char>, u64>,
}

impl InterestModel {
    /// The graph after a search.
    pub open spec fn after_query(self, query: Seq<char>) -> InterestModel {
        InterestModel { terms: bumped(self.terms, tokens(query), HIT), domains: self.domains }
    }

    /// The graph after a visit to a page on a domain.
    pub open spec fn after_visit_to(
        self,
        domain: Option<Seq<char>>,
        title: Seq<char>,
    ) -> InterestModel {
        InterestModel {
            terms: bumped(self.terms, tokens(title), TITLE_HIT),
            domains: match domain {
                Some(found) => bumped(self.domains, seq![found], HIT),
                None => self.domains,
            },
        }
    }

    /// The graph after a visit.
    pub open spec fn after_visit(self, url: Seq<char>, title: Seq<char>) -> InterestModel {
        self.after_visit_to(domain_of(url), title)
    }

    /// The score of a candidate on a domain, in twentieths of a point.
    pub open spec fn points_on(
        self,
        domain: Option<Seq<char>>,
        title: Seq<char>,
        snippet: Seq<char>,
    ) -> nat {
        let by_domain: nat = match domain {
            Some(found) => crate::store::held(self.domains, found) as nat * 6,
            None => 0,
        };
        by_domain + weight_sum(self.terms, tokens(title)) * 4 + weight_sum(
            self.terms,
            tokens(snippet),
        )
    }

    /// The score of a candidate in twentieths of a point.
    pub open spec fn points(self, url: Seq<char>, title: Seq<char>, snippet: Seq<char>) -> nat {
        self.points_on(domain_of(url), title, snippet)
    }
}

/// A word or a domain with its weight in tenths of a hit.
#[derive(Debug, Clone)]
pub struct InterestEntry {
    pub term: String,
    pub score: u64,
}

/// What entries say as pairs.
pub open spec fn entry_pairs(list: Seq<InterestEntry>) -> Seq<(String, u64)> {
    Seq::new(list.len(), |i: int| (list[i].term, list[i].score))
}

/// An interest graph as lists, to be kept on disk.
#[derive(Debug)]
pub struct SavedInterests {
    pub terms: Vec<(String, u64)>,
    pub domains: Vec<(String, u64)>,
}

/// The entries that `list` names; where it names a key twice, the last one counts.
pub open spec fn entries_of(list: Seq<(String, u64)>) -> Map<Seq<char>, u64>
    decreases list.len(),
{
    if list.len() == 0 {
        Map::empty()
    } else {
        entries_of(list.drop_last()).insert(list.last().0@, list.last().1)
    }
}

/// The interest graph.
pub struct InterestGraph {
    /// The weight of each word.
    terms: DashMap<String, u64>,
    /// The weight of each domain.
    domains: DashMap<String, u64>,
}

impl View for InterestGraph {
    type V = InterestModel;

    closed spec fn view(&self) -> InterestModel {
        InterestModel { terms: stored(self.terms), domains: stored(self.domains) }
    }
}

fn bump(weights: &mut DashMap<String, u64>, word: &str, weight: u64)
    ensures
        stored(*final(weights)) == bumped(stored(*old(weights)), seq![word@], weight),
{
    let held = match store_get(weights, word) {
        Some(value) => value,
        None => 0,
    };
    store_insert(weights, word.to_owned(), held.saturating_add(weight));
    proof {
        reveal_with_fuel(bumped, 2);
        assert(seq![word@].drop_last() == Seq::<Seq<char>>::empty());
        assert(seq![word@].last() == word@);
    }
}

fn bump_all(weights: &mut DashMap<String, u64>, words: &Vec<String>, weight: u64)
    ensures
        stored(*final(weights)) == bumped(
            stored(*old(weights)),
            crate::text::texts(words@),
            weight,
        ),
{
    let ghost all = crate::text::texts(words@);
    for i in 0..words.len()
        invariant
            all == crate::text::texts(words@),
            stored(*weights) == bumped(stored(*old(weights)), all.take(i as int), weight),
    {
        let ghost before = stored(*weights);
        bump(weights, words[i].as_str(), weight);
        proof {
            reveal_with_fuel(bumped, 2);
            let word = words@[i as int]@;
            assert(seq![word].drop_last() == Seq::<Seq<char>>::empty());
            assert(seq![word].last() == word);
            assert(all.take(i + 1).drop_last() == all.take(i as int));
            assert(all.take(i + 1).last() == word);
        }
    }
    assert(all.take(all.len() as int) == all);
}

fn add_times(sum: u64, weight: u64, times: u64, Ghost(exact): Ghost<int>) -> (more: u64)
    requires
        times <= 6,
        sum == capped(exact),
        exact >= 0,
    ensures
        more == capped(exact + weight * times),
{
    assert(0 <= weight * times <= 0xffff_ffff_ffff_ffff * 6) by (nonlinear_arith)
        requires
            times <= 6,
            0 <= weight <= 0xffff_ffff_ffff_ffff,
            0 <= times,
    ;
    let total: u128 = sum as u128 + weight as u128 * times as u128;
    if total > u64::MAX as u128 {
        u64::MAX
    } else {
        total as u64
    }
}

fn top_entries(weights: &DashMap<String, u64>, n: usize) -> (best: Vec<InterestEntry>)
    ensures
        crate::store::tops(entry_pairs(best@), stored(*weights), n),
{
    let top = top_of(weights, n);
    let mut best: Vec<InterestEntry> = Vec::new();
    for i in 0..top.len()
        invariant
            best.len() == i,
            forall|j: int|
                0 <= j < i ==> (#[trigger] best@[j]).term == top@[j].0 && best@[j].score
                    == top@[j].1,
    {
        best.push(InterestEntry { term: top[i].0.clone(), score: top[i].1 });
    }
    assert(entry_pairs(best@) == top@);
    best
}

fn put_all(weights: &mut DashMap<String, u64>, list: &Vec<(String, u64)>)
    requires
        stored(*old(weights)) == crate::store::nothing_stored(),
    ensures
        stored(*final(weights)) == entries_of(list@),
{
    for i in 0..list.len()
        invariant
            stored(*weights) == entries_of(list@.take(i as int)),
    {
        store_insert(weights, list[i].0.clone(), list[i].1);
        assert(list@.take(i + 1).drop_last() == list@.take(i as int));
    }
    assert(list@.take(list@.len() as int) == list@);
}

impl InterestGraph {
    /// A graph without interests.
    pub fn new() -> (graph: InterestGraph)
        ensures
            graph@.terms == Map::<Seq<char>, u64>::empty(),
            graph@.domains == Map::<Seq<char>, u64>::empty(),
    {
        InterestGraph { terms: store_new(), domains: store_new() }
    }

    /// Counts the words of a search.
    pub fn record_query(&mut self, query: &str)
        ensures
            final(self)@ == old(self)@.after_query(query@),
    {
        let words = tokenize(query);
        bump_all(&mut self.terms, &words, HIT);
    }

    /// Counts the domain of a visited page, and the words of its title with less weight.
    pub fn record_visit(&mut self, url: &str, title: &str)
        ensures
            final(self)@ == old(self)@.after_visit(url@, title@),
    {
        let domain = extract_domain(url);
        self.record_visit_to(&domain, title);
    }

    /// Counts a visit to a page on a domain, and the words of its title with less weight.
    pub fn record_visit_to(&mut self, domain: &Option<String>, title: &str)
        ensures
            final(self)@ == old(self)@.after_visit_to(crate::web::opt_text(*domain), title@),
    {
        if let Some(found) = domain {
            bump(&mut self.domains, found.as_str(), HIT);
        }
        let words = tokenize(title);
        bump_all(&mut self.terms, &words, TITLE_HIT);
    }

    fn add_words(
        &self,
        sum: u64,
        words: &Vec<String>,
        times: u64,
        Ghost(exact): Ghost<int>,
    ) -> (more: u64)
        requires
            times <= 6,
            sum == capped(exact),
            exact >= 0,
        ensures
            more == capped(
                exact + weight_sum(self@.terms, crate::text::texts(words@)) * times,
            ),
    {
        let ghost all = crate::text::texts(words@);
        let mut more: u64 = sum;
        proof {
            let nothing: nat = weight_sum(self@.terms, all.take(0));
            assert(nothing * times == 0) by (nonlinear_arith)
                requires
                    nothing == 0,
            ;
        }
        for i in 0..words.len()
            invariant
                times <= 6,
                exact >= 0,
                all == crate::text::texts(words@),
                more == capped(exact + weight_sum(self@.terms, all.take(i as int)) * times),
        {
            let ghost so_far = weight_sum(self@.terms, all.take(i as int));
            let weight = match store_get(&self.terms, words[i].as_str()) {
                Some(value) => value,
                None => 0,
            };
            proof {
                assert(all.take(i + 1).drop_last() == all.take(i as int));
                assert(all.take(i + 1).last() == words@[i as int]@);
                assert(so_far * times >= 0) by (nonlinear_arith)
                    requires
                        so_far >= 0,
                        times >= 0,
                ;
                assert((so_far + weight) * times == so_far * times + weight * times)
                    by (nonlinear_arith);
            }
            more = add_times(more, weight, times, Ghost(exact + so_far * times));
        }
        assert(all.take(all.len() as int) == all);
        more
    }

    /// How well a candidate fits the interests, in twentieths of a point.
    pub fn score(&self, url: &str, title: &str, snippet: &str) -> (score: u64)
        ensures
            score == capped(self@.points(url@, title@, snippet@) as int),
    {
        let domain = extract_domain(url);
        self.score_on(&domain, title, snippet)
    }

    /// How well a candidate on a domain fits the interests, in twentieths of a point.
    pub fn score_on(&self, domain: &Option<String>, title: &str, snippet: &str) -> (score: u64)
        ensures
            score == capped(
                self@.points_on(crate::web::opt_text(*domain), title@, snippet@) as int,
            ),
    {
        let mut sum: u64 = 0;
        let ghost mut exact: int = 0;
        if let Some(found) = domain {
            if let Some(weight) = store_get(&self.domains, found.as_str()) {
                sum = add_times(0, weight, 6, Ghost(0));
                proof {
                    exact = weight * 6;
                }
            }
        }
        let title_words = tokenize(title);
        let snippet_words = tokenize(snippet);
        let with_title = self.add_words(sum, &title_words, 4, Ghost(exact));
        proof {
            exact = exact + weight_sum(self@.terms, tokens(title@)) * 4;
        }
        self.add_words(with_title, &snippet_words, 1, Ghost(exact))
    }

    /// The `n` words with the highest weights, from the highest down.
    pub fn top_terms(&self, n: usize) -> (best: Vec<InterestEntry>)
        ensures
            crate::store::tops(entry_pairs(best@), self@.terms, n),
    {
        top_entries(&self.terms, n)
    }

    /// The `n` domains with the highest weights, from the highest down.
    pub fn top_domains(&self, n: usize) -> (best: Vec<InterestEntry>)
        ensures
            crate::store::tops(entry_pairs(best@), self@.domains, n),
    {
        top_entries(&self.domains, n)
    }

    /// The number of words.
    pub fn term_count(&self) -> (count: usize)
        ensures
            crate::store::has_size(self@.terms, count),
    {
        store_len(&self.terms)
    }

    /// The number of domains.
    pub fn domain_count(&self) -> (count: usize)
        ensures
            crate::store::has_size(self@.domains, count),
    {
        store_len(&self.domains)
    }

    /// The graph as lists, in some order.
    pub fn save(&self) -> (saved: SavedInterests)
        ensures
            crate::store::lists(saved.terms@, self@.terms),
            crate::store::lists(saved.domains@, self@.domains),
    {
        SavedInterests { terms: store_list(&self.terms), domains: store_list(&self.domains) }
    }

    /// The graph that was kept as lists.
    pub fn load(saved: &SavedInterests) -> (graph: InterestGraph)
        ensures
            graph@.terms == entries_of(saved.terms@),
            graph@.domains == entries_of(saved.domains@),
    {
        let mut graph = InterestGraph::new();
        put_all(&mut graph.terms, &saved.terms);
        put_all(&mut graph.domains, &saved.domains);
        graph
    }
}

/// How often `word` stands in `words`.
pub open spec fn times(words: Seq<Seq<char>>, word: Seq<char>) -> nat
    decreases words.len(),
{
    if words.len() == 0 {
        0
    } else {
        times(words.drop_last(), word) + if words.last() == word {
            1nat
        } else {
            0nat
        }
    }
}

/// A word weighs as much as it did and, for each time it is counted, the weight of one
/// count more, up to the greatest number that 64 bits hold. A word that is not counted
/// weighs what it did.
pub proof fn counting_adds_up(
    weights: Map<Seq<char>, u64>,
    words: Seq<Seq<char>>,
    weight: u64,
    word: Seq<char>,
)
    ensures
        crate::store::held(bumped(weights, words, weight), word) == capped(
            crate::store::held(weights, word) + weight * times(words, word),
        ),
        bumped(weights, words, weight).contains_key(word) <==> weights.contains_key(word) || times(
            words,
            word,
        ) > 0,
    decreases words.len(),
{
    if words.len() > 0 {
        counting_adds_up(weights, words.drop_last(), weight, word);
        let n = times(words.drop_last(), word);
        assert(weight * (n + 1) == weight * n + weight) by (nonlinear_arith);
        assert(weight * n >= 0) by (nonlinear_arith)
            requires
                weight >= 0,
                n >= 0,
        ;
    } else {
        assert(weight * 0 == 0) by (nonlinear_arith);
    }
}

/// A weight in `less` is nowhere above that in `more`.
spec fn below(less: Map<Seq<char>, u64>, more: Map<Seq<char>, u64>) -> bool {
    forall|word: Seq<char>|
        #[trigger] crate::store::held(less, word) <= crate::store::held(more, word)
}

proof fn counting_raises(weights: Map<Seq<char>, u64>, words: Seq<Seq<char>>, weight: u64)
    ensures
        below(weights, bumped(weights, words, weight)),
{
    assert forall|word: Seq<char>| #[trigger] crate::store::held(weights, word)
        <= crate::store::held(bumped(weights, words, weight), word) by {
        counting_adds_up(weights, words, weight, word);
        assert(weight * times(words, word) >= 0) by (nonlinear_arith)
            requires
                weight >= 0,
                times(words, word) >= 0,
        ;
    }
}

proof fn sum_rises(less: Map<Seq<char>, u64>, more: Map<Seq<char>, u64>, words: Seq<Seq<char>>)
    requires
        below(less, more),
    ensures
        weight_sum(less, words) <= weight_sum(more, words),
    decreases words.len(),
{
    if words.len() > 0 {
        sum_rises(less, more, words.drop_last());
        assert(crate::store::held(less, words.last()) <= crate::store::held(more, words.last()));
    }
}

proof fn points_rise(
    less: InterestModel,
    more: InterestModel,
    url: Seq<char>,
    title: Seq<char>,
    snippet: Seq<char>,
)
    requires
        below(less.terms, more.terms),
        below(less.domains, more.domains),
    ensures
        less.points(url, title, snippet) <= more.points(url, title, snippet),
{
    sum_rises(less.terms, more.terms, tokens(title));
    sum_rises(less.terms, more.terms, tokens(snippet));
    if let Some(domain) = domain_of(url) {
        assert(crate::store::held(less.domains, domain) <= crate::store::held(
            more.domains,
            domain,
        ));
    }
}

/// A search lowers the score of no candidate.
pub proof fn search_never_lowers(
    graph: InterestModel,
    query: Seq<char>,
    url: Seq<char>,
    title: Seq<char>,
    snippet: Seq<char>,
)
    ensures
        graph.points(url, title, snippet) <= graph.after_query(query).points(url, title, snippet),
{
    counting_raises(graph.terms, tokens(query), HIT);
    points_rise(graph, graph.after_query(query), url, title, snippet);
}

/// A visit lowers the score of no candidate.
pub proof fn visit_never_lowers(
    graph: InterestModel,
    visited: Seq<char>,
    heading: Seq<char>,
    url: Seq<char>,
    title: Seq<char>,
    snippet: Seq<char>,
)
    ensures
        graph.points(url, title, snippet) <= graph.after_visit(visited, heading).points(
            url,
            title,
            snippet,
        ),
{
    counting_raises(graph.terms, tokens(heading), TITLE_HIT);
    if let Some(domain) = domain_of(visited) {
        counting_raises(graph.domains, seq![domain], HIT);
    }
    points_rise(graph, graph.after_visit(visited, heading), url, title, snippet);
}

/// A visit raises the score of every candidate on the same domain by three points at
/// least, as long as the weight of the domain can still grow.
pub proof fn visit_promotes_its_domain(
    graph: InterestModel,
    visited: Seq<char>,
    heading: Seq<char>,
    url: Seq<char>,
    title: Seq<char>,
    snippet: Seq<char>,
)
    requires
        domain_of(visited) is Some,
        domain_of(url) == domain_of(visited),
        crate::store::held(graph.domains, domain_of(visited)->0) + HIT <= u64::MAX,
    ensures
        graph.points(url, title, snippet) + 60 <= graph.after_visit(visited, heading).points(
            url,
            title,
            snippet,
        ),
{
    let domain = domain_of(visited)->0;
    counting_raises(graph.terms, tokens(heading), TITLE_HIT);
    let after = graph.after_visit(visited, heading);
    sum_rises(graph.terms, after.terms, tokens(title));
    sum_rises(graph.terms, after.terms, tokens(snippet));
    reveal_with_fuel(times, 2);
    counting_adds_up(graph.domains, seq![domain], HIT, domain);
    assert(seq![domain].drop_last() == Seq::<Seq<char>>::empty());
    assert(times(seq![domain], domain) == 1);
}

/// A graph without interests gives no candidate any points.
pub proof fn no_interest_no_points(
    graph: InterestModel,
    url: Seq<char>,
    title: Seq<char>,
    snippet: Seq<char>,
)
    requires
        graph.terms == Map::<Seq<char>, u64>::empty(),
        graph.domains == Map::<Seq<char>, u64>::empty(),
    ensures
        graph.points(url, title, snippet) == 0,
{
    nothing_sums_up(tokens(title));
    nothing_sums_up(tokens(snippet));
}

proof fn nothing_sums_up(words: Seq<Seq<char>>)
    ensures
        weight_sum(Map::empty(), words) == 0,
    decreases words.len(),
{
    if words.len() > 0 {
        nothing_sums_up(words.drop_last());
    }
}

/// No stopword is ever counted.
pub proof fn no_stopword_counts(text: Seq<char>)
    ensures
        forall|i: int| 0 <= i < tokens(text).len() ==> !stopword(#[trigger] tokens(text)[i]),
{
    telling_has_no_stopword(
        crate::text::fields(text, |c: char| !crate::text::alphanumeric(c)),
    );
}

proof fn telling_has_no_stopword(runs: Seq<Seq<char>>)
    ensures
        forall|i: int| 0 <= i < telling(runs).len() ==> !stopword(#[trigger] telling(runs)[i]),
    decreases runs.len(),
{
    if runs.len() > 0 {
        telling_has_no_stopword(runs.drop_last());
        let before = telling(runs.drop_last());
        assert forall|i: int| 0 <= i < telling(runs).len() implies !stopword(
            #[trigger] telling(runs)[i],
        ) by {
            if i < before.len() {
                assert(!stopword(before[i]));
            }
        }
    }
}

proof fn telling_adds_up(a: Seq<Seq<char>>, b: Seq<Seq<char>>)
    ensures
        telling(a + b) == telling(a) + telling(b),
    decreases b.len(),
{
    if b.len() == 0 {
        assert(a + b == a);
    } else {
        telling_adds_up(a, b.drop_last());
        assert((a + b).drop_last() == a + b.drop_last());
        assert((a + b).last() == b.last());
    }
}

/// The words of two texts with a space between them are those of the one, followed by
/// those of the other.
pub proof fn words_add_up(a: Seq<char>, b: Seq<char>)
    ensures
        tokens(a + seq![' '] + b) == tokens(a) + tokens(b),
{
    let separates = |c: char| !crate::text::alphanumeric(c);
    crate::text::runs_add_up(a, ' ', b, separates);
    telling_adds_up(crate::text::fields(a, separates), crate::text::fields(b, separates));
}

/// A letter in lower case or a digit, of the ASCII characters.
pub open spec fn plain_char(c: char) -> bool {
    '0' <= c <= '9' || 'a' <= c <= 'z'
}

/// The word is longer than three characters, all of them letters in lower case or digits
/// of the ASCII characters.
pub open spec fn plain_word(word: Seq<char>) -> bool {
    word.len() > 3 && forall|i: int| 0 <= i < word.len() ==> plain_char(#[trigger] word[i])
}

proof fn telling_words_are_plain(runs: Seq<Seq<char>>)
    requires
        forall|i: int, k: int|
            0 <= i < runs.len() && 0 <= k < runs[i].len() ==> crate::text::alphanumeric(
                #[trigger] runs[i][k],
            ) && runs[i][k] <= '\u{7f}',
    ensures
        forall|i: int| 0 <= i < telling(runs).len() ==> plain_word(#[trigger] telling(runs)[i]),
    decreases runs.len(),
{
    if runs.len() > 0 {
        let front = runs.drop_last();
        assert forall|i: int, k: int| 0 <= i < front.len() && 0 <= k < front[i].len() implies
            crate::text::alphanumeric(#[trigger] front[i][k]) && front[i][k] <= '\u{7f}' by {
            assert(crate::text::alphanumeric(runs[i][k]));
        }
        telling_words_are_plain(front);
        let before = telling(front);
        let run = runs.last();
        let word = crate::text::lowercase(run);
        assert forall|k: int| 0 <= k < run.len() implies crate::text::alphanumeric(
            #[trigger] run[k],
        ) && run[k] <= '\u{7f}' by {
            assert(crate::text::alphanumeric(runs[runs.len() - 1][k]));
        }
        assert(crate::text::ascii_only(run));
        assert(vstd::utf8::is_ascii_chars(run));
        vstd::utf8::is_ascii_chars_encode_utf8(run);
        assert forall|k: int| 0 <= k < word.len() implies plain_char(#[trigger] word[k]) by {
            assert(crate::text::alphanumeric(run[k]));
        }
        assert forall|i: int| 0 <= i < telling(runs).len() implies plain_word(
            #[trigger] telling(runs)[i],
        ) by {
            if i < before.len() {
                assert(plain_word(before[i]));
            }
        }
    }
}

/// The words of an ASCII text are longer than three characters and made of letters in
/// lower case and digits.
pub proof fn words_of_plain_texts_are_plain(text: Seq<char>)
    requires
        crate::text::ascii_only(text),
    ensures
        forall|i: int| 0 <= i < tokens(text).len() ==> plain_word(#[trigger] tokens(text)[i]),
{
    let separates = |c: char| !crate::text::alphanumeric(c);
    let runs = crate::text::fields(text, separates);
    crate::text::runs_hold_no_separator(text, separates);
    assert forall|i: int, k: int| 0 <= i < runs.len() && 0 <= k < runs[i].len() implies
        crate::text::alphanumeric(#[trigger] runs[i][k]) && runs[i][k] <= '\u{7f}' by {
        assert(!separates(runs[i][k]) && text.contains(runs[i][k]));
        let p = choose|p: int| 0 <= p < text.len() && text[p] == runs[i][k];
        assert(text[p] <= '\u{7f}');
    }
    telling_words_are_plain(runs);
}

/// A graph that is kept as lists and loaded again holds the same weights, in whatever
/// order the lists name them.
pub proof fn saved_weights_reload(list: Seq<(String, u64)>, weights: Map<Seq<char>, u64>)
    requires
        crate::store::lists(list, weights),
    ensures
        entries_of(list) == weights,
{
    crate::store::list_has_size(list, weights);
    assert forall|i: int| 0 <= i < list.len() implies entries_of(list).contains_key(
        (#[trigger] list[i]).0@,
    ) && entries_of(list)[list[i].0@] == list[i].1 by {
        entry_survives(list, i);
    }
    entries_are_listed(list);
    assert forall|key: Seq<char>|
        entries_of(list).contains_key(key) <==> weights.contains_key(key) by {
        if weights.contains_key(key) {
            let i = choose|i: int| 0 <= i < list.len() && (#[trigger] list[i]).0@ == key;
            assert(entries_of(list).contains_key(list[i].0@));
        }
        if entries_of(list).contains_key(key) {
            let i = choose|i: int| 0 <= i < list.len() && (#[trigger] list[i]).0@ == key;
            assert(weights.contains_key(list[i].0@));
        }
    }
    assert forall|key: Seq<char>| weights.contains_key(key) implies entries_of(list)[key]
        == weights[key] by {
        let i = choose|i: int| 0 <= i < list.len() && (#[trigger] list[i]).0@ == key;
        assert(entries_of(list)[list[i].0@] == list[i].1);
    }
    assert(entries_of(list) =~= weights);
}

proof fn entries_are_listed(list: Seq<(String, u64)>)
    ensures
        forall|key: Seq<char>| #[trigger]
            entries_of(list).contains_key(key) ==> exists|i: int|
                0 <= i < list.len() && (#[trigger] list[i]).0@ == key,
    decreases list.len(),
{
    if list.len() > 0 {
        entries_are_listed(list.drop_last());
        assert forall|key: Seq<char>| #[trigger] entries_of(list).contains_key(key) implies exists|
            i: int,
        |
            0 <= i < list.len() && (#[trigger] list[i]).0@ == key by {
            if key == list.last().0@ {
                assert(list[list.len() - 1].0@ == key);
            } else {
                assert(entries_of(list.drop_last()).contains_key(key));
                let i = choose|i: int|
                    0 <= i < list.drop_last().len() && (#[trigger] list.drop_last()[i]).0@ == key;
                assert(list[i].0@ == key);
            }
        }
    }
}

proof fn entry_survives(list: Seq<(String, u64)>, i: int)
    requires
        0 <= i < list.len(),
        forall|a: int, b: int|
            0 <= a < b < list.len() ==> (#[trigger] list[a]).0@ != (#[trigger] list[b]).0@,
    ensures
        entries_of(list).contains_key(list[i].0@),
        entries_of(list)[list[i].0@] == list[i].1,
    decreases list.len(),
{
    if i < list.len() - 1 {
        entry_survives(list.drop_last(), i);
        assert(list[i].0@ != list[list.len() - 1].0@);
    }
}

} // verus!
