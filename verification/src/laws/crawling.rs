//! Promises about the crawler: when it asks, what it keeps away from, how long it waits, and
//! what it makes of a reply.
use vstd::prelude::*;
use vstd::utf8::encode_utf8;

use crate::clock::Timestamp;
use crate::crawler::ActionModel;
use crate::crawler::CrawlEvent;
use crate::crawler::CrawlPhase;
use crate::crawler::CrawlerModel;
use crate::crawler::PageReply;
use crate::crawler::RobotsReply;
use crate::crawler::RulesModel;
use crate::laws::text::starts;
use crate::search::EntryModel;
use crate::search::Tier;

verus! {

/// The `robots.txt` of a domain is asked for where it is not known, and again once more than
/// an hour has passed.
pub proof fn rules_last_an_hour(crawler: CrawlerModel, domain: Seq<char>, now: u64)
    ensures
        !crawler.robots.contains_key(domain) ==> crawler.needs_robots(domain, now),
        crawler.robots.contains_key(domain) ==> (crawler.needs_robots(domain, now) <==> now
            - crawler.robots[domain].fetched_at > 60 * 60 * 1_000_000_000),
{
}

/// A path may be fetched exactly if it begins with none of the texts that the domain
/// disallows; where nothing is known of the domain, every path may. The delay is the one that
/// the domain asks for, and five seconds where nothing is known of it.
pub proof fn disallowed_paths_are_kept_away_from(
    crawler: CrawlerModel,
    domain: Seq<char>,
    path: Seq<char>,
)
    ensures
        !crawler.robots.contains_key(domain) ==> crawler.verdict_on(domain, path) == (true, 5u64),
        crawler.robots.contains_key(domain) ==> (crawler.verdict_on(domain, path).0
            <==> forall|i: int|
            0 <= i < crawler.robots[domain].disallowed.len() ==> !starts(
                path,
                #[trigger] crawler.robots[domain].disallowed[i],
            )),
        crawler.robots.contains_key(domain) ==> crawler.verdict_on(domain, path).1
            == crawler.robots[domain].crawl_delay,
{
    if crawler.robots.contains_key(domain) {
        let list = crawler.robots[domain].disallowed;
        assert forall|i: int| 0 <= i < list.len() implies crate::text::begins(
            path,
            #[trigger] list[i],
        ) == starts(path, list[i]) by {
            crate::laws::text::beginning(path, list[i]);
        }
        if crate::crawler::disallows(list, path) {
            let i = choose|i: int|
                0 <= i < list.len() && crate::text::begins(path, #[trigger] list[i]);
            assert(starts(path, list[i]));
        }
    }
}

/// A URL is judged by its host and its path; one without a host is not judged.
pub proof fn urls_are_judged_by_host_and_path(crawler: CrawlerModel, url: Seq<char>)
    ensures
        crate::web::url_host(url) is None ==> crawler.verdict(url) == (true, 5u64),
        crate::web::url_host(url) is Some && crate::web::url_path(url) is Some ==> crawler.verdict(
            url,
        ) == crawler.verdict_on(crate::web::url_host(url)->0, crate::web::url_path(url)->0),
        crate::web::url_path(url) is Some ==> crate::crawler::path_text(url)
            == crate::web::url_path(url)->0,
        crate::web::url_path(url) is None ==> crate::crawler::path_text(url)
            == Seq::<char>::empty(),
{
}

/// The time to wait ends as many seconds after the last request to the domain as it asks for;
/// without a request before there is none to wait, and once the time has passed neither.
pub proof fn waiting_ends_with_the_delay(
    crawler: CrawlerModel,
    domain: Seq<char>,
    delay: u64,
    now: u64,
)
    ensures
        crawler.wait(domain, delay, now) >= 0,
        !crawler.last_request.contains_key(domain) ==> crawler.wait(domain, delay, now) == 0,
        crawler.last_request.contains_key(domain) && crawler.last_request[domain] <= now
            && crawler.wait(domain, delay, now) > 0 ==> now + crawler.wait(domain, delay, now)
            == crawler.last_request[domain] + delay * 1_000_000_000,
        crawler.last_request.contains_key(domain) && crawler.last_request[domain] <= now ==> (
        crawler.wait(domain, delay, now) == 0 <==> now >= crawler.last_request[domain] + delay
            * 1_000_000_000),
        crawler.last_request.contains_key(domain) && crawler.last_request[domain] > now
            ==> crawler.wait(domain, delay, now) == delay * 1_000_000_000,
{
    assert(delay * 1_000_000_000 >= 0);
}

/// What came of the request for a `robots.txt` counts from now on and for that domain only: a
/// request that failed as no rules and a delay of five seconds, an answer as what it says. An
/// answer that cannot be read changes nothing.
pub proof fn replies_count_for_their_domain(
    crawler: CrawlerModel,
    domain: Seq<char>,
    reply: RobotsReply,
    now: u64,
)
    ensures
        reply is Unreadable ==> crawler.with_reply(domain, reply, now) == crawler,
        reply is Unreachable ==> crawler.with_reply(domain, reply, now) == (CrawlerModel {
            robots: crawler.robots.insert(
                domain,
                RulesModel { disallowed: Seq::empty(), crawl_delay: 5, fetched_at: now },
            ),
            ..crawler
        }),
        reply matches RobotsReply::Text(text) ==> crawler.with_reply(domain, reply, now) == (
        CrawlerModel {
            robots: crawler.robots.insert(
                domain,
                RulesModel {
                    disallowed: crate::robots::robots_say(text@).disallowed,
                    crawl_delay: crate::robots::robots_say(text@).crawl_delay,
                    fetched_at: now,
                },
            ),
            ..crawler
        }),
        crawler.with_request(domain, now) == (CrawlerModel {
            last_request: crawler.last_request.insert(domain, now),
            ..crawler
        }),
        crate::crawler::robots_address(domain) == "https://"@ + domain + "/robots.txt"@,
{
}

/// Where no rule stands in the way and no time has to pass, what follows is `next` and
/// `action`; a page that is disallowed is given up, and the time that has to pass is waited
/// for.
pub open spec fn goes_on(
    crawler: CrawlerModel,
    url: Seq<char>,
    now: u64,
    outcome: (CrawlerModel, CrawlPhase, ActionModel),
    next: CrawlPhase,
    action: ActionModel,
) -> bool {
    let (allowed, delay) = crawler.verdict(url);
    let wait = crawler.wait(crate::web::url_host(url)->0, delay, now);
    &&& !allowed ==> outcome.1 == CrawlPhase::Over && outcome.2 == ActionModel::Stop
    &&& allowed && wait > 0 ==> outcome.1 == CrawlPhase::Delay && outcome.2
        == ActionModel::Sleep(wait)
    &&& allowed && wait == 0 ==> outcome.1 == next && outcome.2 == action
}

/// The work on a URL with a host goes on step by step: its rules are asked for first where
/// they are not known, with a place; then, unless they disallow the page, the time that has to
/// pass is waited for and a place is asked for; with a place the page is asked for, unless by
/// then the rules disallow it or time has to pass again. A place counts only while fewer than
/// eight requests run. Without a place the work is given up.
pub proof fn work_goes_on(crawler: CrawlerModel, url: Seq<char>, reply: RobotsReply, now: u64)
    requires
        crate::web::url_host(url) is Some,
    ensures
        ({
            let domain = crate::web::url_host(url)->0;
            let begun = crate::crawler::stepped(
                crawler,
                url,
                CrawlPhase::Start,
                CrawlEvent::Begin,
                now,
            );
            &&& begun.0 == crawler
            &&& crawler.needs_robots(domain, now) ==> begun.1 == CrawlPhase::RobotsPermit
                && begun.2 == ActionModel::Acquire
            &&& !crawler.needs_robots(domain, now) ==> goes_on(
                crawler,
                url,
                now,
                begun,
                CrawlPhase::Permit,
                ActionModel::Acquire,
            )
        }),
        ({
            let domain = crate::web::url_host(url)->0;
            let placed = crate::crawler::stepped(
                crawler,
                url,
                CrawlPhase::RobotsPermit,
                CrawlEvent::Permit(true),
                now,
            );
            &&& crawler.running < 8 ==> placed.0 == (CrawlerModel {
                running: crawler.running + 1,
                ..crawler
            }) && placed.1 == CrawlPhase::Robots && placed.2 == ActionModel::FetchRobots(
                "https://"@ + domain + "/robots.txt"@,
            )
            &&& crawler.running >= 8 ==> placed == (
                crawler,
                CrawlPhase::RobotsPermit,
                ActionModel::Acquire,
            )
        }),
        ({
            let domain = crate::web::url_host(url)->0;
            let ended = CrawlerModel {
                running: if crawler.running > 0 {
                    (crawler.running - 1) as nat
                } else {
                    0
                },
                ..crawler
            };
            let answered = crate::crawler::stepped(
                crawler,
                url,
                CrawlPhase::Robots,
                CrawlEvent::Robots(reply),
                now,
            );
            &&& answered.0 == ended.with_reply(domain, reply, now)
            &&& goes_on(
                ended.with_reply(domain, reply, now),
                url,
                now,
                answered,
                CrawlPhase::Permit,
                ActionModel::Acquire,
            )
        }),
        ({
            let slept = crate::crawler::stepped(
                crawler,
                url,
                CrawlPhase::Delay,
                CrawlEvent::Slept,
                now,
            );
            &&& slept.0 == crawler
            &&& goes_on(crawler, url, now, slept, CrawlPhase::Permit, ActionModel::Acquire)
        }),
        ({
            let domain = crate::web::url_host(url)->0;
            let placed = crate::crawler::stepped(
                crawler,
                url,
                CrawlPhase::Permit,
                CrawlEvent::Permit(true),
                now,
            );
            &&& crawler.running >= 8 ==> placed == (
                crawler,
                CrawlPhase::Permit,
                ActionModel::Acquire,
            )
            &&& crawler.running < 8 ==> goes_on(
                crawler,
                url,
                now,
                placed,
                CrawlPhase::Response,
                ActionModel::Get,
            )
            &&& crawler.running < 8 ==> placed.0 == if placed.2 is Get {
                CrawlerModel {
                    last_request: crawler.last_request.insert(domain, now),
                    running: crawler.running + 1,
                    ..crawler
                }
            } else {
                crawler
            }
        }),
        ({
            let refused = crate::crawler::stepped(
                crawler,
                url,
                CrawlPhase::Permit,
                CrawlEvent::Permit(false),
                now,
            );
            refused == (crawler, CrawlPhase::Over, ActionModel::Stop)
        }),
        ({
            let refused = crate::crawler::stepped(
                crawler,
                url,
                CrawlPhase::RobotsPermit,
                CrawlEvent::Permit(false),
                now,
            );
            refused == (crawler, CrawlPhase::Over, ActionModel::Stop)
        }),
{
}

/// The work on a text without a host, and work that has come to its end, is over.
pub proof fn work_comes_to_an_end(
    crawler: CrawlerModel,
    url: Seq<char>,
    phase: CrawlPhase,
    event: CrawlEvent,
    now: u64,
)
    ensures
        crate::web::url_host(url) is None || phase == CrawlPhase::Response || phase
            == CrawlPhase::Over ==> crate::crawler::stepped(crawler, url, phase, event, now).1
            == CrawlPhase::Over && crate::crawler::stepped(crawler, url, phase, event, now).2
            == ActionModel::Stop,
        crate::web::url_host(url) is None || phase == CrawlPhase::Response || phase
            == CrawlPhase::Over ==> crate::crawler::stepped(
            crawler,
            url,
            phase,
            event,
            now,
        ).0.last_request == crawler.last_request && crate::crawler::stepped(
            crawler,
            url,
            phase,
            event,
            now,
        ).0.robots == crawler.robots,
{
}

/// What does not belong to the phase of the work ends it: in each phase there is one thing
/// that it waits for.
pub proof fn anything_else_ends_the_work(
    crawler: CrawlerModel,
    url: Seq<char>,
    phase: CrawlPhase,
    event: CrawlEvent,
    now: u64,
)
    requires
        phase == CrawlPhase::Start ==> !(event is Begin),
        phase == CrawlPhase::RobotsPermit || phase == CrawlPhase::Permit ==> !(event is Permit),
        phase == CrawlPhase::Robots ==> !(event is Robots),
        phase == CrawlPhase::Delay ==> !(event is Slept),
    ensures
        crate::crawler::stepped(crawler, url, phase, event, now).1 == CrawlPhase::Over,
        crate::crawler::stepped(crawler, url, phase, event, now).2 == ActionModel::Stop,
        crate::crawler::stepped(crawler, url, phase, event, now).0.running == if (phase
            == CrawlPhase::Robots || phase == CrawlPhase::Response) && crawler.running > 0 {
            crawler.running - 1
        } else {
            crawler.running as int
        },
{
}

/// The text of a page is what its body encodes, as long as that has at most two mebibytes; of a
/// longer body the first two count. A body that is no UTF-8 is read as nothing.
pub proof fn bodies_are_texts(text: Seq<char>, body: Seq<u8>)
    ensures
        encode_utf8(text).len() <= 2 * 1024 * 1024 ==> crate::crawler::body_text(encode_utf8(text))
            == text,
        body.len() > 2 * 1024 * 1024 ==> crate::crawler::body_text(body)
            == crate::crawler::body_text(body.take(2_097_152)),
        body.len() <= 2 * 1024 * 1024 && !vstd::utf8::valid_utf8(body)
            ==> crate::crawler::body_text(body) == Seq::<char>::empty(),
{
    vstd::utf8::encode_utf8_valid_utf8(text);
    vstd::utf8::encode_utf8_decode_utf8(text);
}

/// A reply has a text exactly if the server reported success and the body could be read.
pub proof fn replies_have_texts(page: PageReply)
    ensures
        crate::crawler::reply_text(None) is None,
        crate::crawler::reply_text(Some(page)) is Some <==> page.success && page.body is Some,
        page.success && page.body is Some ==> crate::crawler::reply_text(Some(page)) == Some(
            crate::crawler::body_text(page.body->0@),
        ),
{
}

/// A crawled page goes into the index as crawled now, with one point and without tags, under
/// its URL and its host.
pub proof fn crawled_pages_enter_with_a_point(
    url: Seq<char>,
    domain: Seq<char>,
    title: Seq<char>,
    snippet: Seq<char>,
    now: Timestamp,
)
    ensures
        crate::crawler::entry_of_crawl(url, domain, title, snippet, now) == (EntryModel {
            url,
            domain,
            title,
            snippet,
            tier: Tier::Indexed,
            last_seen: now,
            score: 20,
            tags: Seq::empty(),
        }),
{
}

/// At most eight requests run at once, a search looks through two hundred candidates, and a
/// hundred go into an empty queue.
pub proof fn numbers_are_these()
    ensures
        crate::crawler::MAX_CONCURRENT == 8,
        crate::crawler::MAX_BODY_BYTES == 2 * 1024 * 1024,
        crate::service::BOOST_CANDIDATES == 200,
        crate::service::RESEED_CANDIDATES == 100,
        crate::service::PER_PAGE == 25,
        crate::page::MAX_PAGE_BYTES == 256 * 1024 * 1024,
        crate::tracker_strip::MAX_GROWTH == 128,
{
}

} // verus!
