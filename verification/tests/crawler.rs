use meridian::clock::Timestamp;
use meridian::crawler::CrawlAction;
use meridian::crawler::CrawlEvent;
use meridian::crawler::CrawlJob;
use meridian::crawler::CrawlPhase;
use meridian::crawler::Crawler;
use meridian::crawler::MAX_BODY_BYTES;
use meridian::crawler::MAX_CONCURRENT;
use meridian::crawler::PageReply;
use meridian::crawler::ROBOTS_LIFETIME_NANOS;
use meridian::crawler::RobotsReply;
use meridian::crawler::crawled_entry;
use meridian::crawler::decode_body;
use meridian::crawler::is_disallowed;
use meridian::crawler::text_of_reply;
use meridian::metadata::extract_metadata;
use meridian::metadata::keep_web_address;
use meridian::metadata::resolve_link;
use meridian::robots::parse_robots;
use meridian::search::Tier;

const SEC: u64 = 1_000_000_000;

fn job(url: &str) -> CrawlJob {
    CrawlJob { url: url.to_string(), phase: CrawlPhase::Start }
}

fn text(robots: &str) -> RobotsReply {
    RobotsReply::Text(robots.to_string())
}

fn reply(html: &str) -> Option<PageReply> {
    Some(PageReply { success: true, body: Some(html.as_bytes().to_vec()) })
}

#[test]
fn robots_lines_are_read() {
    let rules = parse_robots(
        "# comment\nDisallow: /early\nUser-Agent: *\r\nDISALLOW: /private \nDisallow:\n\
         Crawl-Delay: 7\nAllow: /\n\nuser-agent: Other\ndisallow: /other\n\
         User-agent: MeridianBot\ndisallow: /bot\ncrawl-delay: soon",
    );
    assert_eq!(rules.disallowed, vec!["/private", "/bot"]);
    assert_eq!(rules.crawl_delay, 7);
    let none = parse_robots("User-agent: Other\nDisallow: /\nCrawl-delay: 60");
    assert!(none.disallowed.is_empty());
    assert_eq!(none.crawl_delay, 5);
}

#[test]
fn rules_are_kept_to() {
    let mut crawler = Crawler::new();
    assert_eq!(crawler.check_robots("https://a.example/private/x"), (true, 5));
    assert!(crawler.robots_due("a.example", 0));
    crawler.fetch_robots("a.example", &text("User-agent: *\nDisallow: /private\nCrawl-delay: 2"), 10);
    assert_eq!(crawler.check_robots("https://a.example/private/x"), (false, 2));
    assert_eq!(crawler.check_robots("https://a.example/public"), (true, 2));
    assert_eq!(crawler.check_robots("https://b.example/private"), (true, 5));
    assert_eq!(crawler.check_robots("no url"), (true, 5));
    assert!(!crawler.robots_due("a.example", 10 + ROBOTS_LIFETIME_NANOS));
    assert!(crawler.robots_due("a.example", 11 + ROBOTS_LIFETIME_NANOS));
    crawler.fetch_robots("a.example", &RobotsReply::Unreadable, 20);
    assert_eq!(crawler.check_robots("https://a.example/private/x"), (false, 2));
    crawler.fetch_robots("a.example", &RobotsReply::Unreachable, 20);
    assert_eq!(crawler.check_robots("https://a.example/private/x"), (true, 5));
}

#[test]
fn requests_are_spaced() {
    let mut crawler = Crawler::new();
    assert_eq!(crawler.wait_for_domain("a.example", 5, 0), 0);
    crawler.note_request("a.example", 10 * SEC);
    assert_eq!(crawler.wait_for_domain("a.example", 5, 12 * SEC), 3 * SEC as u128);
    assert_eq!(crawler.wait_for_domain("a.example", 5, 15 * SEC), 0);
    assert_eq!(crawler.wait_for_domain("b.example", 5, 12 * SEC), 0);
    assert_eq!(
        crawler.wait_for_domain("a.example", u64::MAX, 10 * SEC),
        u64::MAX as u128 * SEC as u128
    );
}

#[test]
fn work_goes_step_by_step() {
    let mut crawler = Crawler::new();
    let mut first = job("https://a.example/x");
    assert!(matches!(crawler.step(&mut first, &CrawlEvent::Begin, 0), CrawlAction::Acquire));
    assert_eq!(first.phase, CrawlPhase::RobotsPermit);
    match crawler.step(&mut first, &CrawlEvent::Permit(true), 0) {
        CrawlAction::FetchRobots(address) => assert_eq!(address, "https://a.example/robots.txt"),
        other => panic!("{:?}", other),
    }
    let rules = CrawlEvent::Robots(text("User-agent: *\nDisallow: /no\nCrawl-delay: 3"));
    assert!(matches!(crawler.step(&mut first, &rules, SEC), CrawlAction::Acquire));
    assert!(matches!(crawler.step(&mut first, &CrawlEvent::Permit(true), SEC), CrawlAction::Get));
    assert_eq!(first.phase, CrawlPhase::Response);
    assert!(matches!(crawler.step(&mut first, &CrawlEvent::Replied, SEC), CrawlAction::Stop));
    assert_eq!(first.phase, CrawlPhase::Over);

    let mut second = job("https://a.example/y");
    match crawler.step(&mut second, &CrawlEvent::Begin, 2 * SEC) {
        CrawlAction::Sleep(nanos) => assert_eq!(nanos, 2 * SEC as u128),
        other => panic!("{:?}", other),
    }
    assert!(matches!(crawler.step(&mut second, &CrawlEvent::Slept, 4 * SEC), CrawlAction::Acquire));
    let refused = CrawlEvent::Permit(false);
    assert!(matches!(crawler.step(&mut second, &refused, 4 * SEC), CrawlAction::Stop));
    assert_eq!(second.phase, CrawlPhase::Over);

    let mut third = job("https://a.example/no/z");
    assert!(matches!(crawler.step(&mut third, &CrawlEvent::Begin, 9 * SEC), CrawlAction::Stop));
    let mut fourth = job("mailto:x@a.example");
    assert!(matches!(crawler.step(&mut fourth, &CrawlEvent::Begin, 9 * SEC), CrawlAction::Stop));
    let mut fifth = job("https://a.example/y");
    assert!(matches!(crawler.step(&mut fifth, &CrawlEvent::Slept, 9 * SEC), CrawlAction::Stop));
    let mut sixth = job("https://b.example/y");
    crawler.step(&mut sixth, &CrawlEvent::Begin, 9 * SEC);
    assert!(matches!(crawler.step(&mut sixth, &refused, 9 * SEC), CrawlAction::Stop));
}

#[test]
fn two_jobs_on_a_domain_keep_their_distance() {
    let mut crawler = Crawler::new();
    crawler.fetch_robots("a.example", &text("User-agent: *\nCrawl-delay: 3"), 0);
    crawler.note_request("a.example", 0);
    let mut one = job("https://a.example/1");
    let mut two = job("https://a.example/2");
    assert!(matches!(crawler.step(&mut one, &CrawlEvent::Begin, SEC), CrawlAction::Sleep(_)));
    assert!(matches!(crawler.step(&mut two, &CrawlEvent::Begin, SEC), CrawlAction::Sleep(_)));
    let now = 3 * SEC;
    assert!(matches!(crawler.step(&mut one, &CrawlEvent::Slept, now), CrawlAction::Acquire));
    assert!(matches!(crawler.step(&mut two, &CrawlEvent::Slept, now), CrawlAction::Acquire));
    let given = CrawlEvent::Permit(true);
    assert!(matches!(crawler.step(&mut one, &given, now), CrawlAction::Get));
    match crawler.step(&mut two, &given, now + SEC) {
        CrawlAction::Sleep(nanos) => assert_eq!(nanos, 2 * SEC as u128),
        other => panic!("{:?}", other),
    }
    assert_eq!(two.phase, CrawlPhase::Delay);
    assert!(matches!(crawler.step(&mut two, &CrawlEvent::Slept, 6 * SEC), CrawlAction::Acquire));
    assert!(matches!(crawler.step(&mut two, &given, 6 * SEC), CrawlAction::Get));
}

#[test]
fn requests_are_made_with_a_place() {
    let mut crawler = Crawler::new();
    assert_eq!(MAX_CONCURRENT, 8);
    let given = CrawlEvent::Permit(true);
    let mut jobs: Vec<CrawlJob> = Vec::new();
    for n in 0..8 {
        let mut work = job(&format!("https://{}.example/", n));
        assert!(matches!(crawler.step(&mut work, &CrawlEvent::Begin, 0), CrawlAction::Acquire));
        assert!(matches!(crawler.step(&mut work, &given, 0), CrawlAction::FetchRobots(_)));
        jobs.push(work);
    }
    let mut ninth = job("https://9.example/");
    crawler.step(&mut ninth, &CrawlEvent::Begin, 0);
    assert!(matches!(crawler.step(&mut ninth, &given, 0), CrawlAction::Acquire));
    assert_eq!(ninth.phase, CrawlPhase::RobotsPermit);
    let lost = CrawlEvent::Robots(RobotsReply::Unreachable);
    assert!(matches!(crawler.step(&mut jobs[0], &lost, 0), CrawlAction::Acquire));
    assert!(matches!(crawler.step(&mut ninth, &given, 0), CrawlAction::FetchRobots(_)));
    assert!(matches!(crawler.step(&mut jobs[0], &given, 0), CrawlAction::Acquire));
    assert_eq!(jobs[0].phase, CrawlPhase::Permit);
    assert!(matches!(crawler.step(&mut ninth, &CrawlEvent::Replied, 0), CrawlAction::Stop));
    assert!(matches!(crawler.step(&mut jobs[0], &given, 0), CrawlAction::Get));
}

#[test]
fn a_finished_request_gives_its_place_to_the_next() {
    let mut crawler = Crawler::new();
    let given = CrawlEvent::Permit(true);
    for n in 0..20 {
        let mut work = job(&format!("https://{}.example/", n));
        crawler.step(&mut work, &CrawlEvent::Begin, 0);
        assert!(matches!(crawler.step(&mut work, &given, 0), CrawlAction::FetchRobots(_)));
        crawler.step(&mut work, &CrawlEvent::Robots(RobotsReply::Unreadable), 0);
        assert!(matches!(crawler.step(&mut work, &given, 0), CrawlAction::Get));
        assert!(matches!(crawler.step(&mut work, &CrawlEvent::Replied, 0), CrawlAction::Stop));
    }
}

#[test]
fn hosts_of_urls() {
    assert_eq!(Crawler::extract_domain("https://www.A.example:8080/x"), Some("www.a.example".to_string()));
    assert_eq!(Crawler::extract_domain("/x"), None);
}

#[test]
fn bodies_are_decoded() {
    assert_eq!(decode_body(&"a\u{fc}".as_bytes().to_vec()), "a\u{fc}");
    assert_eq!(decode_body(&vec![0x61, 0xff]), "");
    let mut long = vec![b'a'; MAX_BODY_BYTES];
    long.push(0xff);
    assert_eq!(decode_body(&long).len(), MAX_BODY_BYTES);
    let mut cut = vec![b'a'; MAX_BODY_BYTES - 1];
    cut.extend("\u{fc}".as_bytes());
    assert_eq!(decode_body(&cut), "");
}

#[test]
fn metadata_of_a_page() {
    let html = "<html><head><title> A title </title>\
                <meta name=\"description\" content=\" what it is \"></head>\
                <body><h1>Heading</h1><p>short</p>\
                <a href=\"/rel?utm_id=1&x=2\">r</a><a href=\"#top\">t</a>\
                <a href=\"javascript:void(0)\">j</a><a href=\"mailto:x@y\">m</a>\
                <a href=\"https://b.example/?gclid=1\">b</a><a name=\"n\">n</a></body></html>";
    let (title, snippet, links) = extract_metadata(html, "https://a.example/dir/");
    assert_eq!(title, "A title");
    assert_eq!(snippet, " what it is ");
    assert_eq!(links, vec!["https://a.example/rel?x=2", "https://b.example/"]);
    let (_, _, lost) = extract_metadata(html, "no base");
    assert_eq!(lost, vec!["https://b.example/"]);
}

#[test]
fn metadata_without_title_or_description() {
    let words: Vec<String> = (0..60).map(|n| format!("word{}", n)).collect();
    let html = format!("<h1> Big </h1><p>too short</p><p>{}</p>", words.join(" "));
    let (title, snippet, links) = extract_metadata(&html, "https://a.example");
    assert_eq!(title, "Big");
    assert_eq!(snippet, words.join(" ")[..220].to_string());
    assert!(links.is_empty());
    let fifteen: Vec<&str> = vec!["w"; 15];
    let (none, empty, _) =
        extract_metadata(&format!("<p>{}</p>", fifteen.join(" ")), "https://a.example");
    assert_eq!(none, "");
    assert_eq!(empty, "");
}

#[test]
fn a_page_gives_eighty_links() {
    let html: String = (0..100).map(|n| format!("<a href=\"/{}\">x</a>", n)).collect();
    let (_, _, links) = extract_metadata(&html, "https://a.example");
    assert_eq!(links.len(), 80);
    assert_eq!(links[79], "https://a.example/79");
}

#[test]
fn links_are_resolved() {
    let base = "https://a.example/dir/page";
    assert_eq!(resolve_link("next", base), Some("https://a.example/dir/next".to_string()));
    assert_eq!(resolve_link("//b.example", base), Some("https://b.example/".to_string()));
    assert_eq!(resolve_link("http:x", base), Some("http://x/".to_string()));
    assert_eq!(resolve_link("httpfoo", base), Some("httpfoo".to_string()));
    assert_eq!(resolve_link("ftp://x", base), None);
    assert_eq!(resolve_link("#a", base), None);
    assert_eq!(resolve_link("//[bad", base), None);
}

#[test]
fn crawled_pages() {
    let now = Timestamp { secs: 3, nanos: 4 };
    let html = "<title>T</title><a href=\"/x\">x</a>";
    let page = Crawler::crawl_one("https://a.example/", &reply(html), now).unwrap();
    assert_eq!(page.entry.url, "https://a.example/");
    assert_eq!(page.entry.domain, "a.example");
    assert_eq!(page.entry.title, "T");
    assert_eq!(page.entry.snippet, "");
    assert_eq!(page.entry.tier, Tier::Indexed);
    assert_eq!(page.entry.last_seen, now);
    assert_eq!(page.entry.score, 20);
    assert!(page.entry.tags.is_empty());
    assert_eq!(page.outbound_links, vec!["https://a.example/x"]);
    assert!(Crawler::crawl_one("a.example", &reply(html), now).is_none());
    assert!(Crawler::crawl_one("https://a.example/", &None, now).is_none());
    let failed = Some(PageReply { success: false, body: Some(vec![]) });
    assert!(Crawler::crawl_one("https://a.example/", &failed, now).is_none());
    let lost = Some(PageReply { success: true, body: None });
    assert!(Crawler::crawl_one("https://a.example/", &lost, now).is_none());
}

#[test]
fn fetched_pages_are_stripped() {
    let html = "<title>T</title><meta name=\"description\" content=\"d\">\
                <a href=\"https://b.example/?fbclid=1\">x</a>";
    let (clean, title, snippet) =
        Crawler::fetch_and_strip("https://a.example/", &reply(html)).unwrap();
    assert_eq!(clean, html.replace("?fbclid=1", ""));
    assert_eq!(title, "T");
    assert_eq!(snippet, "d");
    assert!(Crawler::fetch_and_strip("a.example", &reply(html)).is_none());
    assert!(Crawler::fetch_and_strip("https://a.example/", &None).is_none());
}

#[test]
fn paths_are_checked_by_their_beginning() {
    let rules = vec!["/private".to_string(), "/tmp/".to_string()];
    assert!(is_disallowed(&rules, "/private"));
    assert!(is_disallowed(&rules, "/privateer"));
    assert!(is_disallowed(&rules, "/tmp/x"));
    assert!(!is_disallowed(&rules, "/tmp"));
    assert!(!is_disallowed(&vec![], "/"));
}

#[test]
fn steps_on_a_domain() {
    let mut crawler = Crawler::new();
    let given = CrawlEvent::Permit(true);
    let (phase, action) =
        crawler.step_on("a.example", "/x", CrawlPhase::Start, &CrawlEvent::Begin, 7);
    assert_eq!(phase, CrawlPhase::RobotsPermit);
    assert!(matches!(action, CrawlAction::Acquire));
    let (phase, action) = crawler.step_on("a.example", "/x", phase, &given, 7);
    assert_eq!(phase, CrawlPhase::Robots);
    assert!(matches!(action, CrawlAction::FetchRobots(_)));
    let lost = CrawlEvent::Robots(RobotsReply::Unreachable);
    let (phase, action) = crawler.step_on("a.example", "/x", phase, &lost, 8);
    assert_eq!(phase, CrawlPhase::Permit);
    assert!(matches!(action, CrawlAction::Acquire));
    let (phase, action) = crawler.step_on("a.example", "/x", phase, &given, 8);
    assert_eq!(phase, CrawlPhase::Response);
    assert!(matches!(action, CrawlAction::Get));
    let (phase, action) =
        crawler.step_on("a.example", "/y", CrawlPhase::Start, &CrawlEvent::Begin, 9);
    assert_eq!(phase, CrawlPhase::Delay);
    assert!(matches!(action, CrawlAction::Sleep(4_999_999_999)));
    assert_eq!(crawler.check_path("a.example", "/y"), (true, 5));
}

#[test]
fn a_page_is_asked_for_only_if_it_is_allowed() {
    let mut crawler = Crawler::new();
    let rules = || CrawlEvent::Robots(text("User-agent: MeridianBot\nDisallow: /no"));
    for (path, allowed) in [("/no", false), ("/yes", true)] {
        let address = format!("https://{}.example{}", &path[1..], path);
        let mut work = job(&address);
        crawler.step(&mut work, &CrawlEvent::Begin, 0);
        crawler.step(&mut work, &CrawlEvent::Permit(true), 0);
        crawler.step(&mut work, &rules(), 0);
        let last = crawler.step(&mut work, &CrawlEvent::Permit(true), 0);
        assert_eq!(matches!(last, CrawlAction::Get), allowed);
    }
}

#[test]
fn texts_of_replies() {
    assert_eq!(text_of_reply(&reply("x")), Some("x".to_string()));
    assert_eq!(text_of_reply(&None), None);
    let refused = Some(PageReply { success: false, body: Some(vec![b'x']) });
    assert_eq!(text_of_reply(&refused), None);
}

#[test]
fn entries_of_crawled_pages() {
    let now = Timestamp { secs: 1, nanos: 2 };
    let entry =
        crawled_entry("u", "d".to_string(), "t".to_string(), "s".to_string(), now);
    assert_eq!((entry.url.as_str(), entry.domain.as_str()), ("u", "d"));
    assert_eq!((entry.title.as_str(), entry.snippet.as_str()), ("t", "s"));
    assert_eq!(entry.tier, Tier::Indexed);
    assert_eq!(entry.score, 20);
    assert_eq!(entry.last_seen, now);
}

#[test]
fn only_web_addresses_are_kept() {
    assert_eq!(
        keep_web_address(Some("http://a.example/?ref=x".to_string())),
        Some("http://a.example/".to_string())
    );
    assert_eq!(keep_web_address(Some("ftp://a.example/".to_string())), None);
    assert_eq!(keep_web_address(None), None);
}
