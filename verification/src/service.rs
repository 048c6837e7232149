//! What the service does with searches, visits, reports and crawled pages.
//!
//! Scores and priorities are counted in twentieths of a point.
use vstd::prelude::*;

use crate::clock::Timestamp;
use crate::crawler::CrawlResult;
use crate::interest::capped;
use crate::interest::trim_www;
use crate::interest::InterestGraph;
use crate::interest::InterestModel;
use crate::queue::CrawlQueue;
use crate::queue::QueueModel;
use crate::search::matches_query;
use crate::search::EntryModel;
use crate::search::IndexEntry;
use crate::search::ResultModel;
use crate::search::SearchHit;
use crate::search::SearchIndex;
use crate::search::SearchResult;
use crate::search::Tier;
use crate::text::chars_of;
use crate::text::split_full_lines;
use crate::text::text_of;
use crate::text::texts;
use crate::text::trim;
use crate::web::host_of;

verus! {

/// The results on a page of an answer.
pub const PER_PAGE: usize = 25;

/// The most candidates that a search looks through.
pub const BOOST_CANDIDATES: usize = 200;

/// The most candidates that go into an empty queue.
pub const RESEED_CANDIDATES: usize = 100;

/// Half a point: a candidate of a higher score is promoted by a search; also the
/// priority of a link as long as nothing is known of the user's interests, and of a
/// candidate that goes into an empty queue.
pub const HALF_POINT: u64 = 10;

/// What a search adds to the priority of a candidate: five points.
pub const SEARCH_BOOST: u64 = 100;

/// The priority of a page that the user has asked for: three points.
pub const FETCH_PRIORITY: u64 = 60;

/// The priority of a seed and of a link on a reported page: one point.
pub const LINK_PRIORITY: u64 = 20;

/// The score of a reported page: one point and a half.
pub const REPORT_SCORE: u64 = 30;

/// What the service holds.
#[verifier::ext_equal]
pub struct ServiceModel {
    pub index: Seq<EntryModel>,
    pub interests: InterestModel,
    pub queue: QueueModel,
}

/// The index, the user's interests and the crawl queue.
pub struct Meridian {
    pub index: SearchIndex,
    pub interests: InterestGraph,
    pub queue: CrawlQueue,
}

impl View for Meridian {
    type V = ServiceModel;

    open spec fn view(&self) -> ServiceModel {
        ServiceModel { index: self.index@, interests: self.interests@, queue: self.queue@ }
    }
}

/// URL, title and snippet of a candidate.
pub type CandidateModel = (Seq<char>, Seq<char>, Seq<char>);

/// A search promotes the candidate: a word of the query stands in its title or its
/// snippet, and it has more than half a point.
pub open spec fn promoted(
    interests: InterestModel,
    query: Seq<char>,
    candidate: CandidateModel,
) -> bool {
    &&& crate::search::mentions(
        candidate.1,
        candidate.2,
        crate::search::query_terms(query),
    )
    &&& capped(interests.points(candidate.0, candidate.1, candidate.2) as int) > HALF_POINT
}

/// The queue after those of the first `n` candidates that a search for the query promotes
/// have been offered with their score and the boost of a search.
pub open spec fn boosted(
    queue: QueueModel,
    interests: InterestModel,
    query: Seq<char>,
    candidates: Seq<CandidateModel>,
    n: int,
) -> QueueModel
    decreases n,
{
    if n <= 0 {
        queue
    } else {
        let before = boosted(queue, interests, query, candidates, n - 1);
        let (url, title, snippet) = candidates[n - 1];
        let score = capped(interests.points(url, title, snippet) as int);
        if promoted(interests, query, candidates[n - 1]) {
            before.pushed(url, capped(score + SEARCH_BOOST))
        } else {
            before
        }
    }
}

/// The queue after the first `n` candidates have been offered with half a point.
pub open spec fn reseeded(queue: QueueModel, candidates: Seq<CandidateModel>, n: int) -> QueueModel
    decreases n,
{
    if n <= 0 {
        queue
    } else {
        reseeded(queue, candidates, n - 1).pushed(candidates[n - 1].0, HALF_POINT)
    }
}

/// The priority of a link on a page with this title.
pub open spec fn link_priority(
    interests: InterestModel,
    link: Seq<char>,
    title: Seq<char>,
) -> u64 {
    if interests.terms.dom().len() > 0 {
        capped(interests.points(link, title, Seq::empty()) as int)
    } else {
        HALF_POINT
    }
}

/// The queue after the links of a page have been offered, one after the other.
pub open spec fn links_queued(
    queue: QueueModel,
    interests: InterestModel,
    links: Seq<Seq<char>>,
    title: Seq<char>,
) -> QueueModel
    decreases links.len(),
{
    if links.len() == 0 {
        queue
    } else {
        links_queued(queue, interests, links.drop_last(), title).pushed(
            links.last(),
            link_priority(interests, links.last(), title),
        )
    }
}

/// The title of a page in the index; nothing if the index does not have it.
pub open spec fn known_title(index: Seq<EntryModel>, url: Seq<char>) -> Seq<char> {
    match crate::search::slot_of(index, url) {
        Some(slot) => index[slot].title,
        None => Seq::empty(),
    }
}

/// What a browser reports of a page that the user has seen.
pub struct ExtensionReport {
    pub url: String,
    pub title: String,
    pub snippet: String,
    pub links: Vec<String>,
}

/// The domain that a visit to a page on a host counts for.
pub open spec fn counted_domain(host: Option<Seq<char>>) -> Option<Seq<char>> {
    match host {
        Some(found) => Some(crate::interest::without_www(found)),
        None => None,
    }
}

/// The entry for the index of a reported page on a host.
pub open spec fn reported_entry(
    report: ExtensionReport,
    host: Option<Seq<char>>,
    now: Timestamp,
) -> EntryModel {
    EntryModel {
        url: report.url@,
        domain: match host {
            Some(found) => found,
            None => Seq::empty(),
        },
        title: report.title@,
        snippet: report.snippet@,
        tier: Tier::Cached,
        last_seen: now,
        score: REPORT_SCORE,
        tags: Seq::empty(),
    }
}

fn domain_counted(host: &Option<String>) -> (domain: Option<String>)
    ensures
        crate::web::opt_text(domain) == counted_domain(crate::web::opt_text(*host)),
{
    match host {
        Some(found) => Some(trim_www(found.as_str())),
        None => None,
    }
}

impl ServiceModel {
    /// What the service holds after the user has asked for a page on a host.
    pub open spec fn after_fetch(self, url: Seq<char>, host: Option<Seq<char>>) -> ServiceModel {
        ServiceModel {
            index: self.index,
            interests: self.interests.after_visit_to(
                counted_domain(host),
                known_title(self.index, url),
            ),
            queue: if host is Some {
                self.queue.pushed(url, FETCH_PRIORITY)
            } else {
                self.queue
            },
        }
    }

    /// What the service holds after the report of a page on a host.
    pub open spec fn after_report(
        self,
        report: ExtensionReport,
        host: Option<Seq<char>>,
        now: Timestamp,
    ) -> ServiceModel {
        ServiceModel {
            index: crate::search::upserted(self.index, reported_entry(report, host, now)),
            interests: self.interests.after_visit_to(counted_domain(host), report.title@),
            queue: self.queue.pushed_all(texts(report.links@), LINK_PRIORITY),
        }
    }
}

/// The position in an answer at which a page of it starts; pages are counted from one.
pub open spec fn page_start(page: usize) -> int {
    if page <= 1 {
        0
    } else {
        (page - 1) * PER_PAGE
    }
}

/// `results` from position `start` on.
pub open spec fn from_position(results: Seq<ResultModel>, start: int) -> Seq<ResultModel> {
    if start <= results.len() {
        results.skip(start)
    } else {
        Seq::empty()
    }
}

/// `results` are a page of the answer to a search: the answer up to the end of the page,
/// from the start of the page on.
pub open spec fn is_page<F: Fn(&SearchHit) -> u64>(
    results: Seq<ResultModel>,
    index: Seq<EntryModel>,
    query: Seq<char>,
    page: usize,
    now: Timestamp,
    weigh: F,
) -> bool {
    exists|all: Seq<ResultModel>| #[trigger]
        crate::search::is_answer(
            all,
            index,
            query,
            (page_start(page) + PER_PAGE) as usize,
            now,
            weigh,
        ) && results == from_position(all, page_start(page))
}

impl Meridian {
    /// Every part is well-formed.
    pub open spec fn wf(&self) -> bool {
        self.index.wf() && self.queue@.wf()
    }

    /// Takes note of a search: its words count as interests, and what ought to be
    /// crawled moves up in the queue as far as it matches the query and fits the
    /// interests.
    pub fn record_search(&mut self, query: &str, now: Timestamp)
        requires
            old(self).wf(),
        ensures
            final(self).wf(),
            final(self)@.index == old(self)@.index,
            final(self)@.interests == old(self)@.interests.after_query(query@),
            exists|candidates: Seq<CandidateModel>| #[trigger]
                crate::search::are_candidates(
                    candidates,
                    old(self)@.index,
                    now,
                    BOOST_CANDIDATES,
                ) && final(self)@.queue == boosted(
                    old(self)@.queue,
                    final(self)@.interests,
                    query@,
                    candidates,
                    candidates.len() as int,
                ),
    {
        self.interests.record_query(query);
        let ghost noted = self@;
        self.boost_queue_for_query(query, now);
        proof {
            let candidates = choose|candidates: Seq<CandidateModel>| #[trigger]
                crate::search::are_candidates(candidates, noted.index, now, BOOST_CANDIDATES)
                    && self@.queue == boosted(
                    noted.queue,
                    noted.interests,
                    query@,
                    candidates,
                    candidates.len() as int,
                );
            assert(noted.index == old(self)@.index);
            assert(noted.queue == old(self)@.queue);
            assert(crate::search::are_candidates(
                candidates,
                old(self)@.index,
                now,
                BOOST_CANDIDATES,
            ));
        }
    }

    /// Moves up in the queue what ought to be crawled, if a word of the query stands in
    /// its title or its snippet and it fits the interests.
    pub fn boost_queue_for_query(&mut self, query: &str, now: Timestamp)
        requires
            old(self).wf(),
        ensures
            final(self).wf(),
            final(self)@.index == old(self)@.index,
            final(self)@.interests == old(self)@.interests,
            exists|candidates: Seq<CandidateModel>| #[trigger]
                crate::search::are_candidates(
                    candidates,
                    old(self)@.index,
                    now,
                    BOOST_CANDIDATES,
                ) && final(self)@.queue == boosted(
                    old(self)@.queue,
                    old(self)@.interests,
                    query@,
                    candidates,
                    candidates.len() as int,
                ),
    {
        let candidates = self.index.candidates_for_crawl(BOOST_CANDIDATES, now);
        let ghost views = crate::search::candidate_views(candidates@);
        for n in 0..candidates.len()
            invariant
                views == crate::search::candidate_views(candidates@),
                self.wf(),
                self@.index == old(self)@.index,
                self@.interests == old(self)@.interests,
                self@.queue == boosted(
                    old(self)@.queue,
                    old(self)@.interests,
                    query@,
                    views,
                    n as int,
                ),
        {
            let (url, title, snippet) = &candidates[n];
            assert(views[n as int] == (url@, title@, snippet@));
            if matches_query(query, title.as_str(), snippet.as_str()) {
                let score = self.interests.score(url.as_str(), title.as_str(), snippet.as_str());
                if score > HALF_POINT {
                    self.queue.push(url.as_str(), score.saturating_add(SEARCH_BOOST));
                }
            }
        }
    }

    /// One page of the answer to a search; pages are counted from one.
    pub fn search_page<F: Fn(&SearchHit) -> u64>(
        &self,
        query: &str,
        page: usize,
        now: Timestamp,
        weigh: F,
    ) -> (results: Vec<SearchResult>)
        requires
            page_start(page) + PER_PAGE <= usize::MAX,
            forall|hit: &SearchHit| call_requires(weigh, (hit,)),
        ensures
            is_page(
                crate::search::result_views(results@),
                self@.index,
                query@,
                page,
                now,
                weigh,
            ),
    {
        let start: usize = if page <= 1 {
            0
        } else {
            (page - 1) * PER_PAGE
        };
        let mut all = self.index.search(query, start + PER_PAGE, now, weigh);
        let ghost views = crate::search::result_views(all@);
        let results = if start <= all.len() {
            all.split_off(start)
        } else {
            Vec::new()
        };
        assert(crate::search::result_views(results@) == from_position(views, page_start(page)));
        assert(crate::search::is_answer(
            views,
            self@.index,
            query@,
            (page_start(page) + PER_PAGE) as usize,
            now,
            weigh,
        ));
        results
    }

    /// Takes note that the user asks for a page: it counts as a visit, and the page is
    /// queued to be crawled soon.
    pub fn record_fetch(&mut self, url: &str)
        requires
            old(self).wf(),
        ensures
            final(self).wf(),
            final(self)@ == old(self)@.after_fetch(url@, crate::web::url_host(url@)),
    {
        let host = host_of(url);
        self.record_fetch_from(url, &host);
    }

    /// Takes note that the user asks for a page on a host.
    pub fn record_fetch_from(&mut self, url: &str, host: &Option<String>)
        requires
            old(self).wf(),
        ensures
            final(self).wf(),
            final(self)@ == old(self)@.after_fetch(url@, crate::web::opt_text(*host)),
    {
        let title = match self.index.get_title(url) {
            Some(title) => title,
            None => String::new(),
        };
        self.interests.record_visit_to(&domain_counted(host), title.as_str());
        if host.is_some() {
            self.queue.push(url, FETCH_PRIORITY);
        }
    }

    /// Takes note of whether a fetched page has gone into the cache.
    pub fn record_store(&mut self, url: &str, stored: bool)
        requires
            old(self).wf(),
        ensures
            final(self).wf(),
            final(self)@.index == if stored {
                crate::search::with_cached(old(self)@.index, url@)
            } else {
                old(self)@.index
            },
            final(self)@.interests == old(self)@.interests,
            final(self)@.queue == old(self)@.queue,
    {
        if stored {
            self.index.mark_cached(url);
        }
    }

    /// Takes in what a browser reports of a page: it counts as a visit, the page goes
    /// into the index as cached, and its links are queued.
    pub fn index_report(&mut self, report: &ExtensionReport, now: Timestamp)
        requires
            old(self).wf(),
        ensures
            final(self).wf(),
            final(self)@ == old(self)@.after_report(
                *report,
                crate::web::url_host(report.url@),
                now,
            ),
    {
        let host = host_of(report.url.as_str());
        self.index_report_from(report, &host, now);
    }

    /// Takes in what a browser reports of a page on a host.
    pub fn index_report_from(
        &mut self,
        report: &ExtensionReport,
        host: &Option<String>,
        now: Timestamp,
    )
        requires
            old(self).wf(),
        ensures
            final(self).wf(),
            final(self)@ == old(self)@.after_report(*report, crate::web::opt_text(*host), now),
    {
        self.interests.record_visit_to(&domain_counted(host), report.title.as_str());
        let domain = match host {
            Some(found) => found.clone(),
            None => String::new(),
        };
        let entry = IndexEntry {
            url: report.url.clone(),
            domain,
            title: report.title.clone(),
            snippet: report.snippet.clone(),
            tier: Tier::Cached,
            last_seen: now,
            score: REPORT_SCORE,
            tags: Vec::new(),
        };
        assert(entry@.tags == Seq::<Seq<char>>::empty());
        self.index.upsert(entry);
        self.queue.push_many(&report.links, LINK_PRIORITY);
    }

    /// The next URLs to crawl, up to `n`. If none waits, what ought to be crawled is
    /// queued instead, and comes up the next time.
    pub fn next_batch(&mut self, n: usize, now: Timestamp) -> (batch: Vec<String>)
        requires
            old(self).wf(),
        ensures
            final(self).wf(),
            final(self)@.index == old(self)@.index,
            final(self)@.interests == old(self)@.interests,
            crate::queue::is_batch(old(self)@.queue, n, texts(batch@)),
            batch@.len() > 0 ==> final(self)@.queue == old(self)@.queue.popped(texts(batch@)),
            batch@.len() == 0 ==> exists|candidates: Seq<CandidateModel>| #[trigger]
                crate::search::are_candidates(
                    candidates,
                    old(self)@.index,
                    now,
                    RESEED_CANDIDATES,
                ) && final(self)@.queue == reseeded(
                    old(self)@.queue,
                    candidates,
                    candidates.len() as int,
                ),
    {
        let batch = self.queue.pop_batch(n);
        if batch.len() > 0 {
            return batch;
        }
        proof {
            let urls = texts(batch@);
            assert(urls.to_set() == Set::<Seq<char>>::empty());
            assert(old(self)@.queue.popped(urls) == old(self)@.queue);
        }
        let candidates = self.index.candidates_for_crawl(RESEED_CANDIDATES, now);
        let ghost views = crate::search::candidate_views(candidates@);
        for k in 0..candidates.len()
            invariant
                views == crate::search::candidate_views(candidates@),
                self.wf(),
                self@.index == old(self)@.index,
                self@.interests == old(self)@.interests,
                self@.queue == reseeded(old(self)@.queue, views, k as int),
        {
            assert(views[k as int].0 == candidates@[k as int].0@);
            self.queue.push(candidates[k].0.as_str(), HALF_POINT);
        }
        batch
    }

    /// Takes in a crawled page: its links are queued by how well they fit the interests,
    /// and the page goes into the index.
    pub fn absorb(&mut self, result: CrawlResult)
        requires
            old(self).wf(),
        ensures
            final(self).wf(),
            final(self)@.interests == old(self)@.interests,
            final(self)@.queue == links_queued(
                old(self)@.queue,
                old(self)@.interests,
                texts(result.outbound_links@),
                result.entry.title@,
            ),
            final(self)@.index == crate::search::upserted(old(self)@.index, result.entry@),
    {
        let CrawlResult { entry, outbound_links } = result;
        let ghost links = texts(outbound_links@);
        let interested = self.interests.term_count() > 0;
        for i in 0..outbound_links.len()
            invariant
                links == texts(outbound_links@),
                interested == (old(self)@.interests.terms.dom().len() > 0),
                self.wf(),
                self@.index == old(self)@.index,
                self@.interests == old(self)@.interests,
                self@.queue == links_queued(
                    old(self)@.queue,
                    old(self)@.interests,
                    links.take(i as int),
                    entry.title@,
                ),
        {
            assert(links.take(i + 1).drop_last() == links.take(i as int));
            assert(links.take(i + 1).last() == outbound_links@[i as int]@);
            let link = outbound_links[i].as_str();
            let priority = if interested {
                proof {
                    reveal_strlit("");
                    assert(""@ == Seq::<char>::empty());
                }
                self.interests.score(link, entry.title.as_str(), "")
            } else {
                HALF_POINT
            };
            self.queue.push(link, priority);
        }
        assert(links.take(links.len() as int) == links);
        self.index.upsert(entry);
    }
}

/// The lines of a seed file that name a seed: not empty, and no comments.
pub open spec fn seed_lines(lines: Seq<Seq<char>>) -> Seq<Seq<char>>
    decreases lines.len(),
{
    if lines.len() == 0 {
        Seq::empty()
    } else {
        let before = seed_lines(lines.drop_last());
        let line = crate::text::trimmed(lines.last());
        if line.len() > 0 && line[0] != '#' {
            before.push(line)
        } else {
            before
        }
    }
}

/// The seeds where no file names any.
pub open spec fn builtin_seeds() -> Seq<Seq<char>> {
    seq![
        "https://news.ycombinator.com"@,
        "https://lobste.rs"@,
        "https://thenewstack.io"@,
        "https://arstechnica.com"@,
        "https://www.anthropic.com/news"@,
        "https://openai.com/blog"@,
        "https://huggingface.co/blog"@,
        "https://lilianweng.github.io"@,
        "https://simonwillison.net"@,
        "https://doc.rust-lang.org/book/"@,
        "https://developer.mozilla.org/en-US/docs/Web"@,
        "https://stackoverflow.com/questions?tab=Votes"@,
        "https://selfhosted.show"@,
        "https://www.reddit.com/r/selfhosted/.rss"@,
        "https://noted.lol"@,
        "https://en.wikipedia.org/wiki/Main_Page"@,
        "https://www.w3.org"@,
    ]
}

/// The seeds that a file names; the builtin ones if it names none.
pub open spec fn seeds(text: Seq<char>) -> Seq<Seq<char>> {
    let named = seed_lines(crate::text::full_lines(text));
    if named.len() > 0 {
        named
    } else {
        builtin_seeds()
    }
}

fn builtin_seed_list() -> (list: Vec<String>)
    ensures
        texts(list@) == builtin_seeds(),
{
    let names: Vec<&'static str> = vec![
        "https://news.ycombinator.com",
        "https://lobste.rs",
        "https://thenewstack.io",
        "https://arstechnica.com",
        "https://www.anthropic.com/news",
        "https://openai.com/blog",
        "https://huggingface.co/blog",
        "https://lilianweng.github.io",
        "https://simonwillison.net",
        "https://doc.rust-lang.org/book/",
        "https://developer.mozilla.org/en-US/docs/Web",
        "https://stackoverflow.com/questions?tab=Votes",
        "https://selfhosted.show",
        "https://www.reddit.com/r/selfhosted/.rss",
        "https://noted.lol",
        "https://en.wikipedia.org/wiki/Main_Page",
        "https://www.w3.org",
    ];
    let mut list: Vec<String> = Vec::new();
    for i in 0..names.len()
        invariant
            list.len() == i,
            forall|j: int| 0 <= j < i ==> (#[trigger] list@[j])@ == names@[j]@,
    {
        list.push(names[i].to_owned());
    }
    assert(texts(list@) =~= builtin_seeds());
    list
}

/// The URLs to start from: those that the text of a seed file names, one to a line,
/// where `#` begins a comment; the builtin ones if it names none.
pub fn load_seeds(text: &str) -> (list: Vec<String>)
    ensures
        texts(list@) == seeds(text@),
{
    let chars = chars_of(text);
    let lines = split_full_lines(chars.as_slice());
    let ghost all = crate::text::chars_views(lines@);
    let mut named: Vec<String> = Vec::new();
    for i in 0..lines.len()
        invariant
            all == crate::text::chars_views(lines@),
            texts(named@) == seed_lines(all.take(i as int)),
    {
        assert(all.take(i + 1).drop_last() == all.take(i as int));
        assert(all.take(i + 1).last() == lines@[i as int]@);
        let line = trim(lines[i].as_slice());
        let ghost before = texts(named@);
        if line.len() > 0 && line[0] != '#' {
            named.push(text_of(line));
            assert(texts(named@) == before.push(line@));
        }
    }
    assert(all.take(all.len() as int) == all);
    assert(texts(named@).len() == named@.len());
    if named.len() > 0 {
        named
    } else {
        builtin_seed_list()
    }
}

/// How the request for a page is answered.
#[derive(Debug)]
pub struct FetchReply {
    pub status: u16,
    /// Whether the page came from the cache.
    pub cache: String,
    pub content_type: String,
    pub body: String,
}

/// Answers the request for a page: with the cached page, else with the page that has
/// been fetched, else with an error.
pub fn fetch_reply(
    url: &str,
    cached: Option<String>,
    fetched: Option<String>,
) -> (reply: FetchReply)
    ensures
        cached matches Some(html) ==> reply.status == 200 && reply.cache@ == "hit"@
            && reply.content_type@ == "text/html"@ && reply.body@ == html@,
        cached is None && fetched is Some ==> reply.status == 200 && reply.cache@ == "miss"@
            && reply.content_type@ == "text/html"@ && reply.body@ == fetched->0@,
        cached is None && fetched is None ==> reply.status == 502 && reply.cache@ == "error"@
            && reply.content_type@ == "text/plain"@ && reply.body@ == "failed to fetch "@ + url@,
{
    match cached {
        Some(html) => FetchReply {
            status: 200,
            cache: "hit".to_owned(),
            content_type: "text/html".to_owned(),
            body: html,
        },
        None => match fetched {
            Some(html) => FetchReply {
                status: 200,
                cache: "miss".to_owned(),
                content_type: "text/html".to_owned(),
                body: html,
            },
            None => {
                let mut body = "failed to fetch ".to_owned();
                body.append(url);
                FetchReply {
                    status: 502,
                    cache: "error".to_owned(),
                    content_type: "text/plain".to_owned(),
                    body,
                }
            },
        },
    }
}

/// The state of the service in numbers.
#[derive(Debug)]
pub struct StatusReport {
    pub indexed: usize,
    pub cached: usize,
    pub known: usize,
    pub cache_bytes: u64,
    pub queue_pending: usize,
    pub queue_visited: usize,
    pub interest_terms: usize,
    pub interest_domains: usize,
}

impl Meridian {
    /// The state of the service in numbers; those of the cache are given.
    pub fn status(&self, cached: usize, cache_bytes: u64) -> (report: StatusReport)
        ensures
            report.indexed == self@.index.len(),
            report.cached == cached,
            report.known == crate::search::tier_count(self@.index, Tier::Known),
            report.cache_bytes == cache_bytes,
            report.queue_pending == self@.queue.pending.dom().len(),
            report.queue_visited == self@.queue.visited.len(),
            report.interest_terms == self@.interests.terms.dom().len(),
            report.interest_domains == self@.interests.domains.dom().len(),
    {
        StatusReport {
            indexed: self.index.entry_count(),
            cached,
            known: self.index.known_count(),
            cache_bytes,
            queue_pending: self.queue.pending_len(),
            queue_visited: self.queue.visited_len(),
            interest_terms: self.interests.term_count(),
            interest_domains: self.interests.domain_count(),
        }
    }
}

/// The page of an answer that is shown where none is asked for.
pub fn default_page() -> (page: usize)
    ensures
        page == 1,
{
    1
}

/// A search moves up everything that it looks through, that matches the query and that
/// fits the interests: each such candidate that the queue takes waits with its score and
/// the boost, at least.
pub proof fn search_promotes_what_fits(
    queue: QueueModel,
    interests: InterestModel,
    query: Seq<char>,
    candidates: Seq<CandidateModel>,
    n: int,
    i: int,
)
    requires
        0 <= i < n <= candidates.len(),
        queue.takes(candidates[i].0),
        promoted(interests, query, candidates[i]),
    ensures
        boosted(queue, interests, query, candidates, n).visited == queue.visited,
        boosted(queue, interests, query, candidates, n).pending.contains_key(candidates[i].0),
        boosted(queue, interests, query, candidates, n).pending[candidates[i].0] >= capped(
            capped(interests.points(candidates[i].0, candidates[i].1, candidates[i].2) as int)
                + SEARCH_BOOST,
        ),
    decreases n,
{
    boosting_keeps_visited(queue, interests, query, candidates, n);
    boosting_keeps_visited(queue, interests, query, candidates, n - 1);
    let before = boosted(queue, interests, query, candidates, n - 1);
    if i < n - 1 {
        search_promotes_what_fits(queue, interests, query, candidates, n - 1, i);
        let (url, title, snippet) = candidates[n - 1];
        let score = capped(interests.points(url, title, snippet) as int);
        crate::queue::pushing_never_lowers(
            before,
            url,
            capped(score + SEARCH_BOOST),
            candidates[i].0,
        );
    } else {
        assert(before.takes(candidates[i].0));
    }
}

proof fn boosting_keeps_visited(
    queue: QueueModel,
    interests: InterestModel,
    query: Seq<char>,
    candidates: Seq<CandidateModel>,
    n: int,
)
    ensures
        boosted(queue, interests, query, candidates, n).visited == queue.visited,
    decreases n,
{
    if n > 0 {
        boosting_keeps_visited(queue, interests, query, candidates, n - 1);
    }
}

/// A search moves up nothing that does not match the query: where no candidate mentions
/// any of its words, the queue stays as it is.
pub proof fn search_promotes_matches_only(
    queue: QueueModel,
    interests: InterestModel,
    query: Seq<char>,
    candidates: Seq<CandidateModel>,
    n: int,
)
    requires
        0 <= n <= candidates.len(),
        forall|i: int|
            0 <= i < n ==> !crate::search::mentions(
                (#[trigger] candidates[i]).1,
                candidates[i].2,
                crate::search::query_terms(query),
            ),
    ensures
        boosted(queue, interests, query, candidates, n) == queue,
    decreases n,
{
    if n > 0 {
        search_promotes_matches_only(queue, interests, query, candidates, n - 1);
        assert(!promoted(interests, query, candidates[n - 1]));
    }
}

/// The pages of an answer follow each other without gap and without overlap, as long as
/// the index does not change: each is the next stretch of the whole answer.
pub proof fn pages_follow_each_other<F: Fn(&SearchHit) -> u64>(
    weigh: F,
    weight: spec_fn(crate::search::HitModel) -> u64,
    index: Seq<EntryModel>,
    query: Seq<char>,
    page: usize,
    results: Seq<ResultModel>,
    all: Seq<ResultModel>,
    now: Timestamp,
)
    requires
        crate::search::weighed_by(weigh, weight),
        page_start(page) + PER_PAGE <= usize::MAX,
        is_page(results, index, query, page, now, weigh),
        crate::search::is_answer(all, index, query, usize::MAX, now, weigh),
    ensures
        results.len() <= PER_PAGE,
        page_start(page) >= all.len() ==> results == Seq::<ResultModel>::empty(),
        page_start(page) < all.len() ==> results == all.subrange(
            page_start(page),
            if page_start(page) + PER_PAGE < all.len() {
                page_start(page) + PER_PAGE
            } else {
                all.len() as int
            },
        ),
{
    let end: usize = (page_start(page) + PER_PAGE) as usize;
    let some = choose|some: Seq<ResultModel>| #[trigger]
        crate::search::is_answer(some, index, query, end, now, weigh) && results == from_position(
            some,
            page_start(page),
        );
    crate::search::smaller_limits_give_beginnings(
        weigh,
        weight,
        index,
        query,
        end,
        usize::MAX,
        some,
        all,
        now,
        now,
    );
    assert(0 <= page_start(page));
}

} // verus!
