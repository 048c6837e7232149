//! Promises about what the service does with searches, visits, reports and crawled pages.
use vstd::prelude::*;

use crate::clock::Timestamp;
use crate::interest::InterestModel;
use crate::laws::interests::up_to_max;
use crate::laws::queueing::took_offers;
use crate::laws::searching::fits_query;
use crate::queue::QueueModel;
use crate::search::EntryModel;
use crate::search::HitModel;
use crate::search::ResultModel;
use crate::search::SearchHit;
use crate::search::Tier;
use crate::service::CandidateModel;
use crate::service::ExtensionReport;
use crate::service::ServiceModel;

verus! {

/// What a search offers to the queue of a candidate: nothing if no word of the query stands
/// in its title or its snippet, or if it has no more than half a point; else the candidate
/// with five points more than it has.
pub open spec fn boost_for(
    interests: InterestModel,
    query: Seq<char>,
    candidate: CandidateModel,
) -> Option<(Seq<char>, u64)> {
    let points = interests.points(candidate.0, candidate.1, candidate.2);
    if fits_query(candidate.1, candidate.2, query) && points > 10 {
        Some((candidate.0, up_to_max(points as int + 100) as u64))
    } else {
        None
    }
}

/// A search moves up exactly those of the candidates in which a word of the query stands and
/// which have more than half a point, each with five points on top of its own.
pub proof fn searches_boost_what_fits(
    queue: QueueModel,
    interests: InterestModel,
    query: Seq<char>,
    candidates: Seq<CandidateModel>,
    n: int,
)
    requires
        0 <= n <= candidates.len(),
    ensures
        took_offers(
            queue,
            crate::service::boosted(queue, interests, query, candidates, n),
            candidates.take(n).filter_map(
                |candidate: CandidateModel| boost_for(interests, query, candidate),
            ),
        ),
    decreases n,
{
    let f = |candidate: CandidateModel| boost_for(interests, query, candidate);
    if n == 0 {
        assert(candidates.take(0) == Seq::<CandidateModel>::empty());
        no_offers(queue);
    } else {
        searches_boost_what_fits(queue, interests, query, candidates, n - 1);
        let before = crate::service::boosted(queue, interests, query, candidates, n - 1);
        let candidate = candidates[n - 1];
        assert(candidates.take(n).drop_last() == candidates.take(n - 1));
        assert(candidates.take(n).last() == candidate);
        crate::laws::searching::queries_mention_by_words(candidate.1, candidate.2, query);
        let offers = candidates.take(n - 1).filter_map(f);
        if let Some((url, score)) = boost_for(interests, query, candidate) {
            crate::laws::queueing::one_more_offer(queue, before, offers, url, score);
            assert(offers + seq![(url, score)] == offers.push((url, score)));
        }
    }
}

proof fn no_offers(queue: QueueModel)
    ensures
        took_offers(queue, queue, Seq::empty()),
{
}

/// What goes into an empty queue are the candidates, each with half a point.
pub proof fn candidates_are_queued_alike(
    queue: QueueModel,
    candidates: Seq<CandidateModel>,
    n: int,
)
    requires
        0 <= n <= candidates.len(),
    ensures
        took_offers(
            queue,
            crate::service::reseeded(queue, candidates, n),
            Seq::new(n as nat, |i: int| (candidates[i].0, 10u64)),
        ),
    decreases n,
{
    let offers = Seq::new(n as nat, |i: int| (candidates[i].0, 10u64));
    if n == 0 {
        assert(offers == Seq::<(Seq<char>, u64)>::empty());
        no_offers(queue);
    } else {
        candidates_are_queued_alike(queue, candidates, n - 1);
        let before = Seq::new((n - 1) as nat, |i: int| (candidates[i].0, 10u64));
        crate::laws::queueing::one_more_offer(
            queue,
            crate::service::reseeded(queue, candidates, n - 1),
            before,
            candidates[n - 1].0,
            10,
        );
        assert(offers == before.push((candidates[n - 1].0, 10u64)));
    }
}

/// The priority of a link on a page: what its URL and the title of the page are worth to the
/// user, or half a point as long as no word has been counted.
pub open spec fn worth(interests: InterestModel, link: Seq<char>, title: Seq<char>) -> u64 {
    if interests.terms.dom().len() == 0 {
        10
    } else {
        up_to_max(interests.points(link, title, Seq::empty()) as int) as u64
    }
}

/// The links of a crawled page are offered to the queue, each with what it is worth.
pub proof fn links_are_queued_by_worth(
    queue: QueueModel,
    interests: InterestModel,
    links: Seq<Seq<char>>,
    title: Seq<char>,
)
    ensures
        took_offers(
            queue,
            crate::service::links_queued(queue, interests, links, title),
            Seq::new(links.len(), |i: int| (links[i], worth(interests, links[i], title))),
        ),
    decreases links.len(),
{
    let offers = Seq::new(links.len(), |i: int| (links[i], worth(interests, links[i], title)));
    if links.len() == 0 {
        assert(offers == Seq::<(Seq<char>, u64)>::empty());
        no_offers(queue);
    } else {
        let front = links.drop_last();
        let before = Seq::new(front.len(), |i: int| (front[i], worth(interests, front[i], title)));
        links_are_queued_by_worth(queue, interests, front, title);
        crate::laws::queueing::one_more_offer(
            queue,
            crate::service::links_queued(queue, interests, front, title),
            before,
            links.last(),
            worth(interests, links.last(), title),
        );
        assert(offers == before.push((links.last(), worth(interests, links.last(), title))));
    }
}

/// The domain of a host: the host without `www.` in front.
pub open spec fn domain_on(host: Option<Seq<char>>) -> Option<Seq<char>> {
    match host {
        Some(found) => Some(crate::interest::without_www(found)),
        None => None,
    }
}

/// A page that the user asks for counts as a visit to its domain under the title that the
/// index has for it, or none; it is queued with three points if its URL has a host. The index
/// stays as it is.
pub proof fn fetches_count_as_visits(
    service: ServiceModel,
    url: Seq<char>,
    host: Option<Seq<char>>,
    slot: int,
)
    requires
        crate::search::distinct_urls(service.index),
    ensures
        service.after_fetch(url, host).index == service.index,
        0 <= slot < service.index.len() && service.index[slot].url == url ==> service.after_fetch(
            url,
            host,
        ).interests == service.interests.after_visit_to(
            domain_on(host),
            service.index[slot].title,
        ),
        (forall|i: int| 0 <= i < service.index.len() ==> (#[trigger] service.index[i]).url != url)
            ==> service.after_fetch(url, host).interests == service.interests.after_visit_to(
            domain_on(host),
            Seq::empty(),
        ),
        service.after_fetch(url, host).queue == if host is Some {
            service.queue.pushed(url, 60)
        } else {
            service.queue
        },
{
    crate::search::slot_is_sound(service.index, url);
    if 0 <= slot < service.index.len() && service.index[slot].url == url {
        crate::search::slot_is_unique(service.index, slot);
    }
    if let Some(found) = crate::search::slot_of(service.index, url) {
        assert(service.index[found].url == url);
    }
}

/// A page that a browser reports counts as a visit, goes into the index as cached with a
/// point and a half, as it was reported, and its links are queued with one point each.
pub proof fn reports_are_taken_in(
    service: ServiceModel,
    report: ExtensionReport,
    host: Option<Seq<char>>,
    now: Timestamp,
)
    ensures
        service.after_report(report, host, now).interests == service.interests.after_visit_to(
            domain_on(host),
            report.title@,
        ),
        service.after_report(report, host, now).index == crate::search::upserted(
            service.index,
            EntryModel {
                url: report.url@,
                domain: if host is Some {
                    host->0
                } else {
                    Seq::empty()
                },
                title: report.title@,
                snippet: report.snippet@,
                tier: Tier::Cached,
                last_seen: now,
                score: 30,
                tags: Seq::empty(),
            },
        ),
        service.after_report(report, host, now).queue == service.queue.pushed_all(
            Seq::new(report.links@.len(), |i: int| report.links@[i]@),
            20,
        ),
{
    assert(crate::text::texts(report.links@) == Seq::new(
        report.links@.len(),
        |i: int| report.links@[i]@,
    ));
}

/// The pages of an answer have 25 results each and follow each other: page one, which is also
/// shown for page nought, begins with the first result, page two with the 26th, and so on. The
/// last page may be shorter, and behind it nothing comes.
pub proof fn pages_have_25_results<F: Fn(&SearchHit) -> u64>(
    weigh: F,
    weight: spec_fn(HitModel) -> u64,
    index: Seq<EntryModel>,
    query: Seq<char>,
    page: usize,
    results: Seq<ResultModel>,
    all: Seq<ResultModel>,
    now: Timestamp,
)
    requires
        crate::search::weighed_by(weigh, weight),
        page * 25 <= usize::MAX,
        page > 0 || 25 <= usize::MAX,
        crate::service::is_page(results, index, query, page, now, weigh),
        crate::search::is_answer(all, index, query, usize::MAX, now, weigh),
    ensures
        results.len() <= 25,
        ({
            let start = if page == 0 {
                0
            } else {
                (page - 1) * 25
            };
            results == if start >= all.len() {
                Seq::empty()
            } else if start + 25 >= all.len() {
                all.skip(start)
            } else {
                all.subrange(start, start + 25)
            }
        }),
{
    crate::service::pages_follow_each_other(
        weigh,
        weight,
        index,
        query,
        page,
        results,
        all,
        now,
    );
    let start = if page == 0 {
        0
    } else {
        (page - 1) * 25
    };
    assert(crate::service::page_start(page) == start);
    if start < all.len() && start + 25 >= all.len() {
        assert(all.skip(start) == all.subrange(start, all.len() as int));
    }
}

/// What a line of a seed file names: nothing if it is empty or a comment, else itself without
/// white space at the ends.
pub open spec fn seed_in(line: Seq<char>) -> Option<Seq<char>> {
    let core = crate::text::trimmed(line);
    if core.len() == 0 || core[0] == '#' {
        None
    } else {
        Some(core)
    }
}

proof fn seed_lines_are_named(lines: Seq<Seq<char>>, names: spec_fn(Seq<char>) -> Option<Seq<char>>)
    requires
        forall|line: Seq<char>| #[trigger] names(line) == seed_in(line),
    ensures
        crate::service::seed_lines(lines) == lines.filter_map(names),
    decreases lines.len(),
{
    if lines.len() > 0 {
        seed_lines_are_named(lines.drop_last(), names);
        assert(names(lines.last()) == seed_in(lines.last()));
    }
}

/// The seeds are what the lines of the file name, in their order; where they name nothing, they
/// are these.
pub proof fn seeds_are_named_or_built_in(text: Seq<char>)
    ensures
        ({
            let named = crate::text::full_lines(text).filter_map(
                |line: Seq<char>| seed_in(line),
            );
            crate::service::seeds(text) == if named.len() > 0 {
                named
            } else {
                seq![
                    "https://news.ycombinator.com"@,
                    "https://lobste.rs"@,
                    "https://thenewstack.io"@,
                    "https://arstechnica.com"@,
                    "https://www.anthropic.com/news"@,
                    "https://openai.com/blog"@,
                    "https://huggingface.co/blog"@,
                    "https://lilianweng.github.io"@,
                    "https://simonwillison.net"@,
                    "https://doc.rust-lang.org/book/"@,
                    "https://developer.mozilla.org/en-US/docs/Web"@,
                    "https://stackoverflow.com/questions?tab=Votes"@,
                    "https://selfhosted.show"@,
                    "https://www.reddit.com/r/selfhosted/.rss"@,
                    "https://noted.lol"@,
                    "https://en.wikipedia.org/wiki/Main_Page"@,
                    "https://www.w3.org"@,
                ]
            }
        }),
{
    seed_lines_are_named(
        crate::text::full_lines(text),
        |line: Seq<char>| seed_in(line),
    );
}

} // verus!
