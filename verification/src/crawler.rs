//! The crawler: which page may be fetched and when, and what is made of it.
//!
//! The crawler asks for `robots.txt` of a domain before the first request and again
//! when what it knows is an hour old, keeps away from what is disallowed, and leaves
//! the time between two requests for pages of a domain that the domain asks for. Every
//! request, for a page or for a `robots.txt`, holds one of a few places while it runs, and
//! the crawler counts those that run.
//! Moments are given in nanoseconds of a clock that never goes back.
use dashmap::DashMap;
use vstd::prelude::*;

use crate::clock::Timestamp;
use crate::metadata::extract_metadata;
use crate::robots::parse_robots;
use crate::robots::DEFAULT_CRAWL_DELAY_SECS;
use crate::search::IndexEntry;
use crate::search::Tier;
use crate::store::store_get;
use crate::store::store_insert;
use crate::store::store_new;
use crate::store::stored;
use crate::text::begins_with;
use crate::text::chars_of;
use crate::text::from_utf8;
use crate::text::texts;
use crate::tracker_strip::strip;
use crate::web::host_of;
use crate::web::path_of;

verus! {

/// The nanoseconds of a second.
pub const NANOS_PER_SEC: u64 = 1_000_000_000;

/// How long a `robots.txt` counts: an hour, in nanoseconds.
pub const ROBOTS_LIFETIME_NANOS: u64 = 3_600_000_000_000;

/// The most bytes of a page that are read.
pub const MAX_BODY_BYTES: usize = 2_097_152;

/// The most requests that run at once, over all domains.
pub const MAX_CONCURRENT: usize = 8;

/// The score of a page that has just been crawled: one point.
pub const CRAWLED_SCORE: u64 = 20;

/// What a domain's `robots.txt` said.
pub struct RobotRules {
    pub disallowed: Vec<String>,
    pub crawl_delay: u64,
    pub fetched_at: u64,
}

/// What a domain's `robots.txt` said, as a mathematical value.
#[verifier::ext_equal]
pub struct RulesModel {
    pub disallowed: Seq<Seq<char>>,
    pub crawl_delay: u64,
    pub fetched_at: u64,
}

impl View for RobotRules {
    type V = RulesModel;

    open spec fn view(&self) -> RulesModel {
        RulesModel {
            disallowed: texts(self.disallowed@),
            crawl_delay: self.crawl_delay,
            fetched_at: self.fetched_at,
        }
    }
}

/// What came of the request for a `robots.txt`.
pub enum RobotsReply {
    /// The request failed.
    Unreachable,
    /// There was an answer, but its text could not be read.
    Unreadable,
    /// The text of the answer.
    Text(String),
}

/// What a crawler knows.
#[verifier::ext_equal]
pub struct CrawlerModel {
    /// When the last request to each domain was made.
    pub last_request: Map<Seq<char>, u64>,
    /// What the `robots.txt` of each domain said.
    pub robots: Map<Seq<char>, RulesModel>,
    /// How many requests run.
    pub running: nat,
}

/// The time from `before` to `now`; nought if `now` comes first.
pub open spec fn elapsed(now: u64, before: u64) -> u64 {
    if now >= before {
        (now - before) as u64
    } else {
        0
    }
}

/// A path is disallowed: it begins with one of these.
pub open spec fn disallows(disallowed: Seq<Seq<char>>, path: Seq<char>) -> bool {
    exists|i: int|
        0 <= i < disallowed.len() && crate::text::begins(path, #[trigger] disallowed[i])
}

/// The path of a URL; nothing if the text is no URL.
pub open spec fn path_text(url: Seq<char>) -> Seq<char> {
    match crate::web::url_path(url) {
        Some(path) => path,
        None => Seq::empty(),
    }
}

/// What the reply to the request for a `robots.txt` says; nothing if it is unreadable.
pub open spec fn rules_from(reply: RobotsReply, now: u64) -> Option<RulesModel> {
    match reply {
        RobotsReply::Unreachable => Some(
            RulesModel {
                disallowed: Seq::empty(),
                crawl_delay: DEFAULT_CRAWL_DELAY_SECS,
                fetched_at: now,
            },
        ),
        RobotsReply::Unreadable => None,
        RobotsReply::Text(text) => Some(
            RulesModel {
                disallowed: crate::robots::robots_say(text@).disallowed,
                crawl_delay: crate::robots::robots_say(text@).crawl_delay,
                fetched_at: now,
            },
        ),
    }
}

/// The address of a domain's `robots.txt`.
pub open spec fn robots_address(domain: Seq<char>) -> Seq<char> {
    "https://"@ + domain + "/robots.txt"@
}

impl CrawlerModel {
    /// The `robots.txt` of the domain is not known, or known for too long.
    pub open spec fn needs_robots(self, domain: Seq<char>, now: u64) -> bool {
        !self.robots.contains_key(domain) || elapsed(now, self.robots[domain].fetched_at)
            > ROBOTS_LIFETIME_NANOS
    }

    /// Whether a path on a domain may be fetched, and the seconds to leave between two
    /// requests to the domain. Without rules everything may be fetched.
    pub open spec fn verdict_on(self, domain: Seq<char>, path: Seq<char>) -> (bool, u64) {
        if self.robots.contains_key(domain) {
            (
                !disallows(self.robots[domain].disallowed, path),
                self.robots[domain].crawl_delay,
            )
        } else {
            (true, DEFAULT_CRAWL_DELAY_SECS)
        }
    }

    /// Whether a URL may be fetched, and the seconds to leave between two requests to
    /// its domain.
    pub open spec fn verdict(self, url: Seq<char>) -> (bool, u64) {
        match crate::web::url_host(url) {
            Some(domain) => self.verdict_on(domain, path_text(url)),
            None => (true, DEFAULT_CRAWL_DELAY_SECS),
        }
    }

    /// The nanoseconds that are still to pass before the next request to a domain.
    pub open spec fn wait(self, domain: Seq<char>, delay_secs: u64, now: u64) -> int {
        if self.last_request.contains_key(domain) {
            let left = delay_secs * NANOS_PER_SEC - elapsed(now, self.last_request[domain]);
            if left > 0 {
                left
            } else {
                0
            }
        } else {
            0
        }
    }

    /// What is known after a reply to the request for a domain's `robots.txt`.
    pub open spec fn with_reply(
        self,
        domain: Seq<char>,
        reply: RobotsReply,
        now: u64,
    ) -> CrawlerModel {
        match rules_from(reply, now) {
            Some(rules) => CrawlerModel { robots: self.robots.insert(domain, rules), ..self },
            None => self,
        }
    }

    /// What is known after a request to a domain.
    pub open spec fn with_request(self, domain: Seq<char>, now: u64) -> CrawlerModel {
        CrawlerModel { last_request: self.last_request.insert(domain, now), ..self }
    }

    /// One more request may run.
    pub open spec fn has_place(self) -> bool {
        self.running < MAX_CONCURRENT
    }

    /// What is known once one more request runs.
    pub open spec fn with_start(self) -> CrawlerModel {
        CrawlerModel { running: self.running + 1, ..self }
    }

    /// What is known once a request has come to an end.
    pub open spec fn with_end(self) -> CrawlerModel {
        CrawlerModel {
            running: if self.running > 0 {
                (self.running - 1) as nat
            } else {
                0
            },
            ..self
        }
    }
}

/// Whether a path begins with one of the disallowed beginnings.
pub fn is_disallowed(disallowed: &Vec<String>, path: &str) -> (yes: bool)
    ensures
        yes == disallows(texts(disallowed@), path@),
{
    let letters = chars_of(path);
    for i in 0..disallowed.len()
        invariant
            letters@ == path@,
            forall|j: int|
                0 <= j < i ==> !crate::text::begins(path@, #[trigger] texts(disallowed@)[j]),
    {
        assert(texts(disallowed@)[i as int] == disallowed@[i as int]@);
        if begins_with(letters.as_slice(), disallowed[i].as_str()) {
            return true;
        }
    }
    false
}

fn path_or_nothing(url: &str) -> (path: String)
    ensures
        path@ == path_text(url@),
{
    match path_of(url) {
        Some(path) => path,
        None => String::new(),
    }
}

/// The crawler.
pub struct Crawler {
    /// When the last request to each domain was made.
    last_request: DashMap<String, u64>,
    /// Where the rules of each domain stand.
    slots: DashMap<String, u64>,
    rules: Vec<RobotRules>,
    /// How many requests run.
    running: usize,
}

impl View for Crawler {
    type V = CrawlerModel;

    closed spec fn view(&self) -> CrawlerModel {
        CrawlerModel {
            last_request: stored(self.last_request),
            robots: Map::new(
                |domain: Seq<char>| stored(self.slots).contains_key(domain),
                |domain: Seq<char>| self.rules@[stored(self.slots)[domain] as int]@,
            ),
            running: self.running as nat,
        }
    }
}

impl Crawler {
    /// The rules of each domain stand in a place of their own.
    pub closed spec fn wf(&self) -> bool {
        &&& forall|domain: Seq<char>| #[trigger]
            stored(self.slots).contains_key(domain) ==> stored(self.slots)[domain]
                < self.rules@.len()
        &&& forall|a: Seq<char>, b: Seq<char>|
            stored(self.slots).contains_key(a) && stored(self.slots).contains_key(b) && a != b
                ==> #[trigger] stored(self.slots)[a] != #[trigger] stored(self.slots)[b]
    }

    /// A crawler that has made no request yet.
    pub fn new() -> (crawler: Crawler)
        ensures
            crawler@.last_request == Map::<Seq<char>, u64>::empty(),
            crawler@.robots == Map::<Seq<char>, RulesModel>::empty(),
            crawler@.running == 0,
            crawler.wf(),
    {
        let crawler = Crawler {
            last_request: store_new(),
            slots: store_new(),
            rules: Vec::new(),
            running: 0,
        };
        assert(crawler@.robots =~= Map::<Seq<char>, RulesModel>::empty());
        crawler
    }

    /// The host of a URL.
    pub fn extract_domain(url: &str) -> (domain: Option<String>)
        ensures
            crate::web::opt_text(domain) == crate::web::url_host(url@),
    {
        host_of(url)
    }

    fn rules_of(&self, domain: &str) -> (rules: Option<&RobotRules>)
        requires
            self.wf(),
        ensures
            rules is Some <==> self@.robots.contains_key(domain@),
            rules is Some ==> rules->0@ == self@.robots[domain@],
    {
        let count: usize = self.rules.len();
        match store_get(&self.slots, domain) {
            Some(slot) => {
                assert(slot < count);
                Some(&self.rules[slot as usize])
            },
            None => None,
        }
    }

    /// Whether the `robots.txt` of a domain has to be asked for.
    pub fn robots_due(&self, domain: &str, now: u64) -> (due: bool)
        requires
            self.wf(),
        ensures
            due == self@.needs_robots(domain@, now),
    {
        match self.rules_of(domain) {
            Some(rules) => now.saturating_sub(rules.fetched_at) > ROBOTS_LIFETIME_NANOS,
            None => true,
        }
    }

    /// Takes in what came of the request for a domain's `robots.txt`. A request that
    /// failed stands for a site without rules; an answer without a readable text leaves
    /// everything as it is.
    pub fn fetch_robots(&mut self, domain: &str, reply: &RobotsReply, now: u64)
        requires
            old(self).wf(),
        ensures
            final(self)@ == old(self)@.with_reply(domain@, *reply, now),
            final(self).wf(),
    {
        let ghost before = self@;
        let news = match reply {
            RobotsReply::Unreachable => RobotRules {
                disallowed: Vec::new(),
                crawl_delay: DEFAULT_CRAWL_DELAY_SECS,
                fetched_at: now,
            },
            RobotsReply::Unreadable => {
                return ;
            },
            RobotsReply::Text(text) => {
                let lines = parse_robots(text.as_str());
                RobotRules {
                    disallowed: lines.disallowed,
                    crawl_delay: lines.crawl_delay,
                    fetched_at: now,
                }
            },
        };
        assert(Some(news@) == rules_from(*reply, now));
        let count: usize = self.rules.len();
        match store_get(&self.slots, domain) {
            Some(slot) => {
                assert(slot < count);
                self.rules.set(slot as usize, news);
            },
            None => {
                store_insert(&mut self.slots, domain.to_owned(), count as u64);
                self.rules.push(news);
            },
        }
        assert(self@.robots =~= before.robots.insert(domain@, news@));
    }

    /// Whether a URL may be fetched, and the seconds to leave between two requests to
    /// its domain.
    pub fn check_robots(&self, url: &str) -> (verdict: (bool, u64))
        requires
            self.wf(),
        ensures
            verdict == self@.verdict(url@),
    {
        match host_of(url) {
            Some(domain) => self.check_path(domain.as_str(), path_or_nothing(url).as_str()),
            None => (true, DEFAULT_CRAWL_DELAY_SECS),
        }
    }

    /// Whether a path on a domain may be fetched, and the seconds to leave between two
    /// requests to the domain.
    pub fn check_path(&self, domain: &str, path: &str) -> (verdict: (bool, u64))
        requires
            self.wf(),
        ensures
            verdict == self@.verdict_on(domain@, path@),
    {
        match self.rules_of(domain) {
            Some(rules) => (!is_disallowed(&rules.disallowed, path), rules.crawl_delay),
            None => (true, DEFAULT_CRAWL_DELAY_SECS),
        }
    }

    /// The nanoseconds to wait before the next request to a domain.
    pub fn wait_for_domain(&self, domain: &str, delay_secs: u64, now: u64) -> (nanos: u128)
        ensures
            nanos == self@.wait(domain@, delay_secs, now),
    {
        match store_get(&self.last_request, domain) {
            Some(last) => {
                let passed: u128 = now.saturating_sub(last) as u128;
                assert(0 <= delay_secs * NANOS_PER_SEC <= 0xffff_ffff_ffff_ffff * 1_000_000_000)
                    by (nonlinear_arith)
                    requires
                        0 <= delay_secs <= 0xffff_ffff_ffff_ffff,
                        NANOS_PER_SEC == 1_000_000_000,
                ;
                let required: u128 = delay_secs as u128 * NANOS_PER_SEC as u128;
                if passed < required {
                    required - passed
                } else {
                    0
                }
            },
            None => 0,
        }
    }

    /// Takes note that one more request runs.
    fn note_start(&mut self)
        requires
            old(self).wf(),
            old(self)@.has_place(),
        ensures
            final(self)@ == old(self)@.with_start(),
            final(self).wf(),
    {
        self.running = self.running + 1;
        assert(self@.robots =~= old(self)@.robots);
    }

    /// Takes note that a request has come to an end.
    fn note_end(&mut self)
        requires
            old(self).wf(),
        ensures
            final(self)@ == old(self)@.with_end(),
            final(self).wf(),
    {
        if self.running > 0 {
            self.running = self.running - 1;
        }
        assert(self@.robots =~= old(self)@.robots);
    }

    /// Takes note of a request to a domain.
    pub fn note_request(&mut self, domain: &str, now: u64)
        requires
            old(self).wf(),
        ensures
            final(self)@ == old(self)@.with_request(domain@, now),
            final(self).wf(),
    {
        store_insert(&mut self.last_request, domain.to_owned(), now);
        assert(self@.robots =~= old(self)@.robots);
    }
}

/// How far the work on a URL has come. In the phases `Robots` and `Response` a request runs
/// and the work holds a place; in any other phase it holds none.
#[derive(Debug, Clone, Copy, PartialEq, Eq, Structural)]
pub enum CrawlPhase {
    /// Nothing has been done yet.
    Start,
    /// A place has been asked for, to ask for the `robots.txt` of the domain.
    RobotsPermit,
    /// The `robots.txt` of the domain has been asked for.
    Robots,
    /// The time between two requests has to pass.
    Delay,
    /// A place has been asked for, to ask for the page.
    Permit,
    /// The page has been asked for.
    Response,
    /// Nothing more is to be done.
    Over,
}

/// The work on a URL.
pub struct CrawlJob {
    pub url: String,
    pub phase: CrawlPhase,
}

/// What has come to pass.
pub enum CrawlEvent {
    /// The work is to begin.
    Begin,
    /// The request for `robots.txt` has come to an end.
    Robots(RobotsReply),
    /// The time has passed.
    Slept,
    /// A place has been given, or not.
    Permit(bool),
    /// The request for the page has come to an end.
    Replied,
}

/// What is to be done next.
#[derive(Debug)]
pub enum CrawlAction {
    /// Ask for the `robots.txt` at this address, and keep the place until what follows is
    /// known.
    FetchRobots(String),
    /// Give the place back, if one is held, and let so many nanoseconds pass.
    Sleep(u128),
    /// Give the place back, if one is held, and ask for one among the requests that run at
    /// once.
    Acquire,
    /// Ask for the page, and give the place back afterwards.
    Get,
    /// Nothing more.
    Stop,
}

/// What is to be done next, as a mathematical value.
pub enum ActionModel {
    FetchRobots(Seq<char>),
    Sleep(int),
    Acquire,
    Get,
    Stop,
}

impl View for CrawlAction {
    type V = ActionModel;

    open spec fn view(&self) -> ActionModel {
        match self {
            CrawlAction::FetchRobots(address) => ActionModel::FetchRobots(address@),
            CrawlAction::Sleep(nanos) => ActionModel::Sleep(*nanos as int),
            CrawlAction::Acquire => ActionModel::Acquire,
            CrawlAction::Get => ActionModel::Get,
            CrawlAction::Stop => ActionModel::Stop,
        }
    }
}

/// What follows once the rules of a domain are known as far as they can be: nothing if
/// they disallow the path, else a place is asked for, after the time that has to pass.
pub open spec fn with_rules(
    crawler: CrawlerModel,
    domain: Seq<char>,
    path: Seq<char>,
    now: u64,
) -> (CrawlerModel, CrawlPhase, ActionModel) {
    let (allowed, delay) = crawler.verdict_on(domain, path);
    let wait = crawler.wait(domain, delay, now);
    if !allowed {
        (crawler, CrawlPhase::Over, ActionModel::Stop)
    } else if wait > 0 {
        (crawler, CrawlPhase::Delay, ActionModel::Sleep(wait))
    } else {
        (crawler, CrawlPhase::Permit, ActionModel::Acquire)
    }
}

/// In this phase a request runs.
pub open spec fn runs(phase: CrawlPhase) -> bool {
    phase == CrawlPhase::Robots || phase == CrawlPhase::Response
}

/// What follows once there is a place: the page is asked for, unless by now the rules
/// disallow it or time has to pass since another request. Then the place is given back.
pub open spec fn with_place(
    crawler: CrawlerModel,
    domain: Seq<char>,
    path: Seq<char>,
    now: u64,
) -> (CrawlerModel, CrawlPhase, ActionModel) {
    let (allowed, delay) = crawler.verdict_on(domain, path);
    let wait = crawler.wait(domain, delay, now);
    if !allowed {
        (crawler, CrawlPhase::Over, ActionModel::Stop)
    } else if wait > 0 {
        (crawler, CrawlPhase::Delay, ActionModel::Sleep(wait))
    } else {
        (crawler.with_request(domain, now).with_start(), CrawlPhase::Response, ActionModel::Get)
    }
}

/// What a crawler knows, how far the work has come, and what is to be done next, after
/// something has come to pass in the work on a path on a domain. A request that ran has
/// come to an end then. Where as many requests run as may, a place counts for nothing and
/// another is asked for.
pub open spec fn stepped_on(
    crawler: CrawlerModel,
    domain: Seq<char>,
    path: Seq<char>,
    phase: CrawlPhase,
    event: CrawlEvent,
    now: u64,
) -> (CrawlerModel, CrawlPhase, ActionModel) {
    match (phase, event) {
        (CrawlPhase::Start, CrawlEvent::Begin) => if crawler.needs_robots(domain, now) {
            (crawler, CrawlPhase::RobotsPermit, ActionModel::Acquire)
        } else {
            with_rules(crawler, domain, path, now)
        },
        (CrawlPhase::RobotsPermit, CrawlEvent::Permit(given)) => if !given {
            (crawler, CrawlPhase::Over, ActionModel::Stop)
        } else if !crawler.has_place() {
            (crawler, CrawlPhase::RobotsPermit, ActionModel::Acquire)
        } else {
            (
                crawler.with_start(),
                CrawlPhase::Robots,
                ActionModel::FetchRobots(robots_address(domain)),
            )
        },
        (CrawlPhase::Robots, CrawlEvent::Robots(reply)) => with_rules(
            crawler.with_end().with_reply(domain, reply, now),
            domain,
            path,
            now,
        ),
        (CrawlPhase::Delay, CrawlEvent::Slept) => with_rules(crawler, domain, path, now),
        (CrawlPhase::Permit, CrawlEvent::Permit(given)) => if !given {
            (crawler, CrawlPhase::Over, ActionModel::Stop)
        } else if !crawler.has_place() {
            (crawler, CrawlPhase::Permit, ActionModel::Acquire)
        } else {
            with_place(crawler, domain, path, now)
        },
        _ => given_up(crawler, phase),
    }
}

/// What follows when the work is given up. A request that ran has come to an end then.
pub open spec fn given_up(crawler: CrawlerModel, phase: CrawlPhase) -> (
    CrawlerModel,
    CrawlPhase,
    ActionModel,
) {
    (
        if runs(phase) {
            crawler.with_end()
        } else {
            crawler
        },
        CrawlPhase::Over,
        ActionModel::Stop,
    )
}

/// What a crawler knows, how far the work has come, and what is to be done next, after
/// something has come to pass in the work on a URL.
pub open spec fn stepped(
    crawler: CrawlerModel,
    url: Seq<char>,
    phase: CrawlPhase,
    event: CrawlEvent,
    now: u64,
) -> (CrawlerModel, CrawlPhase, ActionModel) {
    match crate::web::url_host(url) {
        Some(domain) => stepped_on(crawler, domain, path_text(url), phase, event, now),
        None => given_up(crawler, phase),
    }
}

/// What came of the request for a page.
pub struct PageReply {
    /// The server reported success.
    pub success: bool,
    /// The body, if it could be read.
    pub body: Option<Vec<u8>>,
}

/// The text of a page: the first bytes of its body, up to the most that are read;
/// nothing if they are no UTF-8.
pub open spec fn body_text(body: Seq<u8>) -> Seq<char> {
    let front = if body.len() > MAX_BODY_BYTES {
        body.take(MAX_BODY_BYTES as int)
    } else {
        body
    };
    if vstd::utf8::valid_utf8(front) {
        vstd::utf8::decode_utf8(front)
    } else {
        Seq::empty()
    }
}

/// The text of the page in a reply; none if there is no reply, no success or no body.
pub open spec fn reply_text(reply: Option<PageReply>) -> Option<Seq<char>> {
    match reply {
        Some(page) => if page.success {
            match page.body {
                Some(body) => Some(body_text(body@)),
                None => None,
            }
        } else {
            None
        },
        None => None,
    }
}

/// A crawled page: its entry for the index, and where its links lead.
#[derive(Debug)]
pub struct CrawlResult {
    pub entry: IndexEntry,
    pub outbound_links: Vec<String>,
}

/// The entry for the index of a page that has just been crawled.
pub open spec fn entry_of_crawl(
    url: Seq<char>,
    domain: Seq<char>,
    title: Seq<char>,
    snippet: Seq<char>,
    now: Timestamp,
) -> crate::search::EntryModel {
    crate::search::EntryModel {
        url,
        domain,
        title,
        snippet,
        tier: Tier::Indexed,
        last_seen: now,
        score: CRAWLED_SCORE,
        tags: Seq::empty(),
    }
}

/// The entry for the index of a page that has just been crawled.
pub fn crawled_entry(
    url: &str,
    domain: String,
    title: String,
    snippet: String,
    now: Timestamp,
) -> (entry: IndexEntry)
    ensures
        entry@ == entry_of_crawl(url@, domain@, title@, snippet@, now),
{
    let entry = IndexEntry {
        url: url.to_owned(),
        domain,
        title,
        snippet,
        tier: Tier::Indexed,
        last_seen: now,
        score: CRAWLED_SCORE,
        tags: Vec::new(),
    };
    assert(entry@.tags == Seq::<Seq<char>>::empty());
    entry
}

/// The text of a page is no longer than what is read of its body, and so short enough for
/// the parser.
pub proof fn bodies_are_parsable(body: Seq<u8>)
    ensures
        vstd::utf8::encode_utf8(body_text(body)).len() <= MAX_BODY_BYTES,
        crate::page::parsable(body_text(body)),
{
    let front = if body.len() > MAX_BODY_BYTES {
        body.take(MAX_BODY_BYTES as int)
    } else {
        body
    };
    if vstd::utf8::valid_utf8(front) {
        vstd::utf8::decode_utf8_encode_utf8(front);
    } else {
        assert(vstd::utf8::encode_utf8(Seq::<char>::empty()).len() == 0);
    }
}

/// The text of a page from its body.
pub fn decode_body(body: &Vec<u8>) -> (text: String)
    ensures
        text@ == body_text(body@),
{
    let front = if body.len() > MAX_BODY_BYTES {
        let front = vstd::slice::slice_subrange(body.as_slice(), 0, MAX_BODY_BYTES);
        assert(front@ == body@.take(MAX_BODY_BYTES as int));
        front
    } else {
        body.as_slice()
    };
    match from_utf8(front) {
        Some(text) => text,
        None => String::new(),
    }
}

/// The text of the page in a reply; none if there is no reply, no success or no body.
pub fn text_of_reply(reply: &Option<PageReply>) -> (text: Option<String>)
    ensures
        crate::web::opt_text(text) == reply_text(*reply),
        text is Some ==> vstd::utf8::encode_utf8(text->0@).len() <= MAX_BODY_BYTES,
{
    match reply {
        Some(page) => if page.success {
            match &page.body {
                Some(body) => {
                    proof {
                        bodies_are_parsable(body@);
                    }
                    Some(decode_body(body))
                },
                None => None,
            }
        } else {
            None
        },
        None => None,
    }
}

impl Crawler {
    fn go_on(&self, domain: &str, path: &str, now: u64) -> (next: (CrawlPhase, CrawlAction))
        requires
            self.wf(),
        ensures
            (self@, next.0, next.1@) == with_rules(self@, domain@, path@, now),
    {
        let (allowed, delay) = self.check_path(domain, path);
        if !allowed {
            return (CrawlPhase::Over, CrawlAction::Stop);
        }
        let wait = self.wait_for_domain(domain, delay, now);
        if wait > 0 {
            (CrawlPhase::Delay, CrawlAction::Sleep(wait))
        } else {
            (CrawlPhase::Permit, CrawlAction::Acquire)
        }
    }

    fn use_place(&mut self, domain: &str, path: &str, now: u64) -> (next: (CrawlPhase, CrawlAction))
        requires
            old(self).wf(),
            old(self)@.has_place(),
        ensures
            final(self).wf(),
            (final(self)@, next.0, next.1@) == with_place(old(self)@, domain@, path@, now),
    {
        let (allowed, delay) = self.check_path(domain, path);
        if !allowed {
            return (CrawlPhase::Over, CrawlAction::Stop);
        }
        let wait = self.wait_for_domain(domain, delay, now);
        if wait > 0 {
            return (CrawlPhase::Delay, CrawlAction::Sleep(wait));
        }
        self.note_request(domain, now);
        self.note_start();
        (CrawlPhase::Response, CrawlAction::Get)
    }

    fn give_up(&mut self, phase: CrawlPhase) -> (next: (CrawlPhase, CrawlAction))
        requires
            old(self).wf(),
        ensures
            final(self).wf(),
            (final(self)@, next.0, next.1@) == given_up(old(self)@, phase),
    {
        if phase == CrawlPhase::Robots || phase == CrawlPhase::Response {
            self.note_end();
        }
        (CrawlPhase::Over, CrawlAction::Stop)
    }

    /// Decides what is to be done next in the work on a path on a domain, and how far the
    /// work has come then.
    pub fn step_on(
        &mut self,
        domain: &str,
        path: &str,
        phase: CrawlPhase,
        event: &CrawlEvent,
        now: u64,
    ) -> (next: (CrawlPhase, CrawlAction))
        requires
            old(self).wf(),
        ensures
            final(self).wf(),
            (final(self)@, next.0, next.1@) == stepped_on(
                old(self)@,
                domain@,
                path@,
                phase,
                *event,
                now,
            ),
    {
        match (phase, event) {
            (CrawlPhase::Start, CrawlEvent::Begin) => {
                if self.robots_due(domain, now) {
                    (CrawlPhase::RobotsPermit, CrawlAction::Acquire)
                } else {
                    self.go_on(domain, path, now)
                }
            },
            (CrawlPhase::RobotsPermit, CrawlEvent::Permit(given)) => {
                if !*given {
                    (CrawlPhase::Over, CrawlAction::Stop)
                } else if self.running >= MAX_CONCURRENT {
                    (CrawlPhase::RobotsPermit, CrawlAction::Acquire)
                } else {
                    self.note_start();
                    let mut address = "https://".to_owned();
                    address.append(domain);
                    address.append("/robots.txt");
                    (CrawlPhase::Robots, CrawlAction::FetchRobots(address))
                }
            },
            (CrawlPhase::Robots, CrawlEvent::Robots(reply)) => {
                self.note_end();
                self.fetch_robots(domain, reply, now);
                self.go_on(domain, path, now)
            },
            (CrawlPhase::Delay, CrawlEvent::Slept) => self.go_on(domain, path, now),
            (CrawlPhase::Permit, CrawlEvent::Permit(given)) => {
                if !*given {
                    (CrawlPhase::Over, CrawlAction::Stop)
                } else if self.running >= MAX_CONCURRENT {
                    (CrawlPhase::Permit, CrawlAction::Acquire)
                } else {
                    self.use_place(domain, path, now)
                }
            },
            _ => self.give_up(phase),
        }
    }

    /// Decides what is to be done next in the work on a URL.
    pub fn step(&mut self, job: &mut CrawlJob, event: &CrawlEvent, now: u64) -> (action:
        CrawlAction)
        requires
            old(self).wf(),
        ensures
            final(self).wf(),
            final(job).url == old(job).url,
            (final(self)@, final(job).phase, action@) == stepped(
                old(self)@,
                old(job).url@,
                old(job).phase,
                *event,
                now,
            ),
    {
        let (phase, action) = match host_of(job.url.as_str()) {
            Some(domain) => {
                let path = path_or_nothing(job.url.as_str());
                self.step_on(domain.as_str(), path.as_str(), job.phase, event, now)
            },
            None => self.give_up(job.phase),
        };
        job.phase = phase;
        action
    }

    /// What is made of the reply to the request for a page: its entry for the index and
    /// its links. Nothing comes of a URL without a host, or of a reply without success
    /// or without a body.
    pub fn crawl_one(url: &str, reply: &Option<PageReply>, now: Timestamp) -> (result: Option<
        CrawlResult,
    >)
        ensures
            result is Some <==> crate::web::url_host(url@) is Some && reply_text(*reply) is Some,
            result matches Some(page) ==> page.entry@ == entry_of_crawl(
                url@,
                crate::web::url_host(url@)->0,
                crate::metadata::title_of(reply_text(*reply)->0),
                crate::metadata::snippet_of(reply_text(*reply)->0),
                now,
            ) && texts(page.outbound_links@) == crate::metadata::links_of(
                reply_text(*reply)->0,
                url@,
            ),
    {
        let domain = match host_of(url) {
            Some(domain) => domain,
            None => {
                return None;
            },
        };
        let html = match text_of_reply(reply) {
            Some(html) => html,
            None => {
                return None;
            },
        };
        let (title, snippet, links) = extract_metadata(html.as_str(), url);
        let entry = crawled_entry(url, domain, title, snippet, now);
        Some(CrawlResult { entry, outbound_links: links })
    }

    /// What is made of the reply to the request for a page that is to be shown: the page
    /// with its trackers stripped, its title and its snippet. Nothing comes of a URL
    /// without a host, or of a reply without success or without a body.
    pub fn fetch_and_strip(url: &str, reply: &Option<PageReply>) -> (result: Option<
        (String, String, String),
    >)
        ensures
            result is Some <==> crate::web::url_host(url@) is Some && reply_text(*reply) is Some,
            result matches Some(page) ==> ({
                let clean = crate::tracker_strip::stripped(reply_text(*reply)->0);
                &&& page.0@ == clean
                &&& page.1@ == crate::metadata::title_of(clean)
                &&& page.2@ == crate::metadata::snippet_of(clean)
            }),
    {
        if host_of(url).is_none() {
            return None;
        }
        let html = match text_of_reply(reply) {
            Some(html) => html,
            None => {
                return None;
            },
        };
        let clean = strip(html.as_str(), url);
        let (title, snippet, _) = extract_metadata(clean.as_str(), url);
        Some((clean, title, snippet))
    }
}

/// A step in the work on a URL: what the crawler knows by then, what has come to pass,
/// and when. Between two steps the work on other URLs may change what is known.
pub struct CrawlStep {
    pub crawler: CrawlerModel,
    pub event: CrawlEvent,
    pub now: u64,
}

/// How far the work on a URL has come after these steps.
pub open spec fn phase_after(url: Seq<char>, steps: Seq<CrawlStep>) -> CrawlPhase
    decreases steps.len(),
{
    if steps.len() == 0 {
        CrawlPhase::Start
    } else {
        let last = steps.last();
        stepped(last.crawler, url, phase_after(url, steps.drop_last()), last.event, last.now).1
    }
}

/// What comes of step `i` in the work on a URL.
pub open spec fn outcome(url: Seq<char>, steps: Seq<CrawlStep>, i: int) -> (
    CrawlerModel,
    CrawlPhase,
    ActionModel,
) {
    stepped(
        steps[i].crawler,
        url,
        phase_after(url, steps.take(i)),
        steps[i].event,
        steps[i].now,
    )
}

/// At step `i` it was decided that the URL may be fetched: the `robots.txt` of its domain
/// was known and recent, or had just been asked for, and what was then known allowed the
/// URL.
pub open spec fn allowed_at(url: Seq<char>, steps: Seq<CrawlStep>, i: int) -> bool {
    let before = phase_after(url, steps.take(i));
    let (known, next, _) = outcome(url, steps, i);
    &&& crate::web::url_host(url) is Some
    &&& before == CrawlPhase::Start || before == CrawlPhase::Robots
    &&& before == CrawlPhase::Start ==> !known.needs_robots(
        crate::web::url_host(url)->0,
        steps[i].now,
    )
    &&& before == CrawlPhase::Robots ==> steps[i].event is Robots
    &&& next == CrawlPhase::Delay || next == CrawlPhase::Permit
    &&& known.verdict(url).0
}

/// At one of these steps it was decided that the URL may be fetched.
pub open spec fn was_allowed(url: Seq<char>, steps: Seq<CrawlStep>) -> bool {
    exists|i: int| 0 <= i < steps.len() && #[trigger] allowed_at(url, steps, i)
}

proof fn waiting_was_allowed(url: Seq<char>, steps: Seq<CrawlStep>)
    requires
        phase_after(url, steps) == CrawlPhase::Delay || phase_after(url, steps)
            == CrawlPhase::Permit,
    ensures
        was_allowed(url, steps),
    decreases steps.len(),
{
    let front = steps.drop_last();
    let last = steps.len() - 1;
    assert(steps.take(last) == front);
    assert(outcome(url, steps, last).1 == phase_after(url, steps));
    if phase_after(url, front) == CrawlPhase::Delay || phase_after(url, front)
        == CrawlPhase::Permit {
        waiting_was_allowed(url, front);
        let i = choose|i: int| 0 <= i < front.len() && #[trigger] allowed_at(url, front, i);
        assert(front.take(i) == steps.take(i));
        assert(allowed_at(url, steps, i));
    } else {
        assert(allowed_at(url, steps, last));
    }
}

/// Only what is allowed is fetched: a page is asked for only if it was decided at an
/// earlier step of the work on it that it may be fetched, whatever comes to pass.
pub proof fn only_allowed_pages_are_fetched(url: Seq<char>, steps: Seq<CrawlStep>)
    requires
        steps.len() > 0,
        outcome(url, steps, steps.len() - 1).2 is Get,
    ensures
        was_allowed(url, steps.drop_last()),
{
    assert(steps.take(steps.len() - 1) == steps.drop_last());
    waiting_was_allowed(url, steps.drop_last());
}

/// At the moment a page is asked for, the work has just been given a place, and the rules
/// of the domain allow the page.
pub proof fn fetched_pages_are_allowed(
    crawler: CrawlerModel,
    url: Seq<char>,
    phase: CrawlPhase,
    event: CrawlEvent,
    now: u64,
)
    ensures
        stepped(crawler, url, phase, event, now).2 is Get ==> phase == CrawlPhase::Permit && event
            == CrawlEvent::Permit(true) && crawler.verdict(url).0,
{
}

/// A step in the work on many URLs at once: which work it belongs to, what has come to
/// pass, and when.
pub struct TrafficStep {
    pub job: int,
    pub event: CrawlEvent,
    pub now: u64,
}

/// What a crawler knows, and how far the work on each URL has come.
pub struct Traffic {
    pub crawler: CrawlerModel,
    pub phases: Seq<CrawlPhase>,
}

/// How things stand after these steps in the work on `urls`, in whatever order they come.
pub open spec fn traffic_after(
    start: CrawlerModel,
    urls: Seq<Seq<char>>,
    steps: Seq<TrafficStep>,
) -> Traffic
    decreases steps.len(),
{
    if steps.len() == 0 {
        Traffic { crawler: start, phases: Seq::new(urls.len(), |i: int| CrawlPhase::Start) }
    } else {
        let before = traffic_after(start, urls, steps.drop_last());
        let step = steps.last();
        let (crawler, phase, _) = stepped(
            before.crawler,
            urls[step.job],
            before.phases[step.job],
            step.event,
            step.now,
        );
        Traffic { crawler, phases: before.phases.update(step.job, phase) }
    }
}

/// What is to be done after step `i`.
pub open spec fn action_at(
    start: CrawlerModel,
    urls: Seq<Seq<char>>,
    steps: Seq<TrafficStep>,
    i: int,
) -> ActionModel {
    let before = traffic_after(start, urls, steps.take(i));
    stepped(
        before.crawler,
        urls[steps[i].job],
        before.phases[steps[i].job],
        steps[i].event,
        steps[i].now,
    ).2
}

/// Each step belongs to the work on one of `urls`, and the clock never goes back.
pub open spec fn in_time(urls: Seq<Seq<char>>, steps: Seq<TrafficStep>) -> bool {
    &&& forall|i: int| 0 <= i < steps.len() ==> 0 <= (#[trigger] steps[i]).job < urls.len()
    &&& forall|i: int, j: int|
        0 <= i <= j < steps.len() ==> (#[trigger] steps[i]).now <= (#[trigger] steps[j]).now
}

proof fn phases_keep_their_number(
    start: CrawlerModel,
    urls: Seq<Seq<char>>,
    steps: Seq<TrafficStep>,
)
    requires
        in_time(urls, steps),
    ensures
        traffic_after(start, urls, steps).phases.len() == urls.len(),
    decreases steps.len(),
{
    if steps.len() > 0 {
        assert(0 <= steps[steps.len() - 1].job < urls.len());
        phases_keep_their_number(start, urls, steps.drop_last());
    }
}

#[verifier::rlimit(40)]
proof fn request_is_remembered(
    start: CrawlerModel,
    urls: Seq<Seq<char>>,
    steps: Seq<TrafficStep>,
    i: int,
    k: int,
    domain: Seq<char>,
)
    requires
        in_time(urls, steps),
        0 <= i < k <= steps.len(),
        action_at(start, urls, steps, i) is Get,
        crate::web::url_host(urls[steps[i].job]) == Some(domain),
    ensures
        ({
            let known = traffic_after(start, urls, steps.take(k)).crawler.last_request;
            known.contains_key(domain) && known[domain] >= steps[i].now
        }),
    decreases k - i,
{
    assert(steps.take(k).drop_last() == steps.take(k - 1));
    assert(steps.take(k).last() == steps[k - 1]);
    if i < k - 1 {
        request_is_remembered(start, urls, steps, i, k - 1, domain);
        assert(steps[i].now <= steps[k - 1].now);
    }
}

/// Two requests for pages of a domain are at least as far apart as the domain asks for by
/// the time of the later one, in whatever order the work on many URLs goes on.
pub proof fn requests_keep_their_distance(
    start: CrawlerModel,
    urls: Seq<Seq<char>>,
    steps: Seq<TrafficStep>,
    i: int,
    j: int,
    domain: Seq<char>,
)
    requires
        in_time(urls, steps),
        0 <= i < j < steps.len(),
        action_at(start, urls, steps, i) is Get,
        action_at(start, urls, steps, j) is Get,
        crate::web::url_host(urls[steps[i].job]) == Some(domain),
        crate::web::url_host(urls[steps[j].job]) == Some(domain),
    ensures
        steps[j].now - steps[i].now >= traffic_after(
            start,
            urls,
            steps.take(j),
        ).crawler.verdict(urls[steps[j].job]).1 * NANOS_PER_SEC,
{
    request_is_remembered(start, urls, steps, i, j, domain);
    assert(steps[i].now <= steps[j].now);
    let delay = traffic_after(start, urls, steps.take(j)).crawler.verdict(urls[steps[j].job]).1;
    assert(delay * NANOS_PER_SEC >= 0) by (nonlinear_arith)
        requires
            delay >= 0,
            NANOS_PER_SEC >= 0,
    ;
}

/// The number of requests that run.
pub open spec fn running(phases: Seq<CrawlPhase>) -> nat
    decreases phases.len(),
{
    if phases.len() == 0 {
        0
    } else {
        running(phases.drop_last()) + if runs(phases.last()) {
            1nat
        } else {
            0nat
        }
    }
}

/// A request is made only by work that has just been given a place, while fewer requests
/// run than may. The crawler counts it, and counts it no more once it has come to an end.
pub proof fn requests_take_a_place(
    crawler: CrawlerModel,
    url: Seq<char>,
    phase: CrawlPhase,
    event: CrawlEvent,
    now: u64,
)
    ensures
        ({
            let (known, next, action) = stepped(crawler, url, phase, event, now);
            &&& runs(next) <==> action is FetchRobots || action is Get
            &&& runs(next) ==> event == CrawlEvent::Permit(true) && !runs(phase)
                && crawler.has_place() && known.running == crawler.running + 1
            &&& !runs(next) && runs(phase) && crawler.running > 0 ==> known.running
                == crawler.running - 1
            &&& !runs(next) && !runs(phase) ==> known.running == crawler.running
        }),
{
}

proof fn running_changes_by_one(phases: Seq<CrawlPhase>, i: int, phase: CrawlPhase)
    requires
        0 <= i < phases.len(),
    ensures
        running(phases.update(i, phase)) + (if runs(phases[i]) {
            1int
        } else {
            0
        }) == running(phases) + (if runs(phase) {
            1int
        } else {
            0
        }),
    decreases phases.len(),
{
    let after = phases.update(i, phase);
    if i < phases.len() - 1 {
        running_changes_by_one(phases.drop_last(), i, phase);
        assert(after.drop_last() == phases.drop_last().update(i, phase));
    } else {
        assert(after.drop_last() == phases.drop_last());
    }
}

/// Never do more requests run at once than may, over all domains and for pages and
/// `robots.txt` alike, in whatever order the work on many URLs goes on and whatever places
/// are given: the crawler counts the requests that run.
pub proof fn requests_are_limited(
    start: CrawlerModel,
    urls: Seq<Seq<char>>,
    steps: Seq<TrafficStep>,
)
    requires
        in_time(urls, steps),
        start.running == 0,
    ensures
        running(traffic_after(start, urls, steps).phases) <= MAX_CONCURRENT,
        traffic_after(start, urls, steps).crawler.running == running(
            traffic_after(start, urls, steps).phases,
        ),
    decreases steps.len(),
{
    if steps.len() == 0 {
        nothing_runs(urls.len());
    } else {
        let front = steps.drop_last();
        let last = steps.len() - 1;
        assert forall|i: int| 0 <= i < front.len() implies #[trigger] front[i] == steps[i] by {}
        requests_are_limited(start, urls, front);
        phases_keep_their_number(start, urls, front);
        let before = traffic_after(start, urls, front);
        let step = steps[last];
        let next = stepped(
            before.crawler,
            urls[step.job],
            before.phases[step.job],
            step.event,
            step.now,
        ).1;
        running_changes_by_one(before.phases, step.job, next);
        requests_take_a_place(
            before.crawler,
            urls[step.job],
            before.phases[step.job],
            step.event,
            step.now,
        );
    }
}

proof fn nothing_runs(n: nat)
    ensures
        running(Seq::new(n, |i: int| CrawlPhase::Start)) == 0,
    decreases n,
{
    if n > 0 {
        nothing_runs((n - 1) as nat);
        assert(Seq::new(n, |i: int| CrawlPhase::Start).drop_last() == Seq::new(
            (n - 1) as nat,
            |i: int| CrawlPhase::Start,
        ));
    }
}

/// The crawler never waits longer than the domain asks for.
pub proof fn waiting_is_bounded(
    crawler: CrawlerModel,
    domain: Seq<char>,
    delay_secs: u64,
    now: u64,
)
    ensures
        0 <= crawler.wait(domain, delay_secs, now) <= delay_secs * NANOS_PER_SEC,
{
    assert(delay_secs * NANOS_PER_SEC >= 0) by (nonlinear_arith)
        requires
            delay_secs >= 0,
            NANOS_PER_SEC >= 0,
    ;
}

/// Rules count from the moment they are known: for an hour the `robots.txt` of the
/// domain is not asked for again, and what it disallows is kept away from.
pub proof fn rules_count_at_once(
    crawler: CrawlerModel,
    domain: Seq<char>,
    reply: RobotsReply,
    fetched: u64,
    now: u64,
    url: Seq<char>,
)
    requires
        !(reply is Unreadable),
        fetched <= now <= fetched + ROBOTS_LIFETIME_NANOS,
        crate::web::url_host(url) == Some(domain),
        crate::web::url_path(url) is Some,
    ensures
        !crawler.with_reply(domain, reply, fetched).needs_robots(domain, now),
        crawler.with_reply(domain, reply, fetched).verdict(url).0 <==> !disallows(
            rules_from(reply, fetched)->0.disallowed,
            crate::web::url_path(url)->0,
        ),
{
}

} // verus!
