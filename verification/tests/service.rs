use meridian::clock::Timestamp;
use meridian::crawler::CrawlResult;
use meridian::interest::InterestGraph;
use meridian::queue::CrawlQueue;
use meridian::search::IndexEntry;
use meridian::search::SearchHit;
use meridian::search::SearchIndex;
use meridian::search::Tier;
use meridian::service::ExtensionReport;
use meridian::service::Meridian;
use meridian::service::default_page;
use meridian::service::fetch_reply;
use meridian::service::load_seeds;

fn service() -> Meridian {
    Meridian { index: SearchIndex::new(), interests: InterestGraph::new(), queue: CrawlQueue::new() }
}

fn at(secs: i64) -> Timestamp {
    Timestamp { secs, nanos: 0 }
}

fn entry(url: &str, title: &str, tier: Tier) -> IndexEntry {
    IndexEntry {
        url: url.to_string(),
        domain: "a.example".to_string(),
        title: title.to_string(),
        snippet: "text".to_string(),
        tier,
        last_seen: at(0),
        score: 20,
        tags: vec![],
    }
}

#[test]
fn a_search_moves_up_what_fits() {
    let mut service = service();
    service.index.upsert(entry("https://a.example/1", "compiler news", Tier::Known));
    service.index.upsert(entry("https://a.example/2", "garden news", Tier::Known));
    service.index.upsert(entry("https://a.example/3", "compiler", Tier::Cached));
    service.record_search("compiler", at(9));
    assert_eq!(service.queue.pending_len(), 1);
    service.queue.push("https://b.example", 139);
    service.queue.push("https://c.example", 141);
    assert_eq!(
        service.queue.pop_batch(3),
        vec!["https://c.example", "https://a.example/1", "https://b.example"]
    );
}

#[test]
fn half_a_point_is_not_enough() {
    let mut service = service();
    service.index.upsert(entry("https://a.example/1", "", Tier::Known));
    service.record_search("text", at(9));
    assert_eq!(service.interests.score("https://a.example/1", "", "text"), 10);
    assert_eq!(service.queue.pending_len(), 0);
}

#[test]
fn answers_come_in_pages() {
    let mut service = service();
    for n in 0..60 {
        service.index.upsert(entry(&format!("https://a.example/{}", n), "word", Tier::Indexed));
    }
    let weigh = |hit: &SearchHit| 1000 - hit.slot as u64;
    let first = service.search_page("word", 1, at(0), weigh);
    assert_eq!(first.len(), 25);
    assert_eq!(first[0].url, "https://a.example/0");
    assert_eq!(service.search_page("word", 0, at(0), weigh)[0].url, "https://a.example/0");
    let second = service.search_page("word", 2, at(0), weigh);
    assert_eq!(second.len(), 25);
    assert_eq!(second[0].url, "https://a.example/25");
    assert_eq!(service.search_page("word", 3, at(0), weigh).len(), 10);
    assert!(service.search_page("word", 4, at(0), weigh).is_empty());
    assert_eq!(default_page(), 1);
}

#[test]
fn a_fetch_counts_as_a_visit() {
    let mut service = service();
    service.index.upsert(entry("https://a.example/1", "compiler", Tier::Known));
    service.record_fetch("https://a.example/1");
    assert_eq!(service.interests.score("https://a.example/", "compiler", ""), 60 + 12);
    assert_eq!(service.queue.pending_len(), 1);
    service.queue.push("https://b.example", 59);
    assert_eq!(service.queue.pop_batch(1), vec!["https://a.example/1"]);
    service.record_fetch("no url");
    assert_eq!(service.queue.pending_len(), 1);
}

#[test]
fn reports_are_taken_in() {
    let mut service = service();
    let report = ExtensionReport {
        url: "https://www.a.example/1".to_string(),
        title: "compiler".to_string(),
        snippet: "s".to_string(),
        links: vec!["https://b.example".to_string(), "ftp://c.example".to_string()],
    };
    service.index_report(&report, at(5));
    let kept = service.index.save();
    assert_eq!(kept[0].domain, "www.a.example");
    assert_eq!(kept[0].tier, Tier::Cached);
    assert_eq!(kept[0].score, 30);
    assert_eq!(kept[0].last_seen, at(5));
    assert_eq!(kept[0].snippet, "s");
    assert_eq!(service.queue.pop_batch(9), vec!["https://b.example"]);
    assert_eq!(service.interests.domain_count(), 1);
}

#[test]
fn an_empty_queue_is_filled_again() {
    let mut service = service();
    service.index.upsert(entry("https://a.example/1", "", Tier::Known));
    assert!(service.next_batch(35, at(0)).is_empty());
    assert_eq!(service.queue.pending_len(), 1);
    assert_eq!(service.next_batch(35, at(0)), vec!["https://a.example/1"]);
    assert!(service.next_batch(35, at(0)).is_empty());
    assert_eq!(service.queue.pending_len(), 0);
}

#[test]
fn crawled_pages_are_taken_in() {
    let mut service = service();
    let result = |url: &str, links: Vec<&str>| CrawlResult {
        entry: entry(url, "compiler", Tier::Indexed),
        outbound_links: links.into_iter().map(|l| l.to_string()).collect(),
    };
    service.absorb(result("https://a.example/1", vec!["https://b.example"]));
    assert_eq!(service.index.entry_count(), 1);
    service.queue.push("https://c.example", 9);
    assert_eq!(service.queue.pop_batch(1), vec!["https://b.example"]);
    service.interests.record_query("compiler");
    service.absorb(result("https://a.example/2", vec!["https://d.example", "https://b.example"]));
    service.queue.push("https://e.example", 39);
    assert_eq!(
        service.queue.pop_batch(9),
        vec!["https://d.example", "https://e.example", "https://c.example"]
    );
}

#[test]
fn seeds_of_a_file() {
    assert_eq!(
        load_seeds("# comment\n https://a.example \r\n\n#x\nhttps://b.example"),
        vec!["https://a.example", "https://b.example"]
    );
    let builtin = load_seeds("");
    assert_eq!(builtin.len(), 17);
    assert_eq!(builtin[0], "https://news.ycombinator.com");
    assert_eq!(builtin[16], "https://www.w3.org");
    assert_eq!(load_seeds("# nothing"), builtin);
}

#[test]
fn requests_are_answered() {
    let hit = fetch_reply("u", Some("h".to_string()), Some("f".to_string()));
    assert_eq!((hit.status, hit.cache.as_str(), hit.body.as_str()), (200, "hit", "h"));
    assert_eq!(hit.content_type, "text/html");
    let miss = fetch_reply("u", None, Some("f".to_string()));
    assert_eq!((miss.status, miss.cache.as_str(), miss.body.as_str()), (200, "miss", "f"));
    let lost = fetch_reply("u", None, None);
    assert_eq!((lost.status, lost.cache.as_str()), (502, "error"));
    assert_eq!(lost.body, "failed to fetch u");
    assert_eq!(lost.content_type, "text/plain");
}

#[test]
fn the_state_in_numbers() {
    let mut service = service();
    service.index.upsert(entry("https://a.example/1", "", Tier::Known));
    service.record_fetch("https://b.example/");
    service.interests.record_query("compiler");
    let status = service.status(4, 5);
    assert_eq!(status.indexed, 1);
    assert_eq!(status.cached, 4);
    assert_eq!(status.known, 1);
    assert_eq!(status.cache_bytes, 5);
    assert_eq!(status.queue_pending, 1);
    assert_eq!(status.queue_visited, 0);
    assert_eq!(status.interest_terms, 1);
    assert_eq!(status.interest_domains, 1);
}

#[test]
fn visits_on_a_host() {
    let mut service = service();
    service.record_fetch_from("https://a.example/1", &Some("www.a.example".to_string()));
    assert_eq!(service.interests.score_on(&Some("a.example".to_string()), "", ""), 60);
    assert_eq!(service.queue.pending_len(), 1);
    service.record_fetch_from("https://b.example/1", &None);
    assert_eq!(service.queue.pending_len(), 1);
    let report = ExtensionReport {
        url: "u".to_string(),
        title: "t".to_string(),
        snippet: "s".to_string(),
        links: vec![],
    };
    service.index_report_from(&report, &Some("www.c.example".to_string()), at(1));
    assert_eq!(service.index.save()[0].domain, "www.c.example");
    assert_eq!(service.interests.domain_count(), 2);
}

#[test]
fn what_does_not_match_is_not_moved_up() {
    let mut service = service();
    service.index.add_known("https://a.com/", "a.com", "Rust guide", at(0));
    service.interests.record_query("rust");
    service.boost_queue_for_query("zebra", at(1));
    assert_eq!(service.queue.pending_len(), 0);
    service.boost_queue_for_query("rust", at(1));
    assert_eq!(service.queue.pending_len(), 1);
}

#[test]
fn only_stored_pages_are_cached() {
    let mut service = service();
    service.index.upsert(entry("https://a.example/1", "", Tier::Known));
    service.record_store("https://a.example/1", false);
    assert_eq!(service.index.cached_count(), 0);
    service.record_store("https://a.example/1", true);
    assert_eq!(service.index.cached_count(), 1);
}

#[test]
fn pages_list_every_match_once() {
    let mut service = service();
    for n in 0..60 {
        service.index.upsert(entry(&format!("https://a.example/{}", n), "word", Tier::Indexed));
    }
    let weigh = |hit: &SearchHit| (hit.slot as u64 * 7) % 60;
    let mut listed: Vec<String> = Vec::new();
    for page in 1..5 {
        listed.extend(service.search_page("word", page, at(0), weigh).into_iter().map(|r| r.url));
    }
    assert_eq!(listed.len(), 60);
    listed.sort();
    listed.dedup();
    assert_eq!(listed.len(), 60);
}
