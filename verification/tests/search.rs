use meridian::clock::Timestamp;
use meridian::search::IndexEntry;
use meridian::search::SearchHit;
use meridian::search::SearchIndex;
use meridian::search::Tier;
use meridian::search::matches_query;
use meridian::search::tier_boost;
use std::collections::hash_map::DefaultHasher;
use std::hash::Hash;
use std::hash::Hasher;

const DAY: i64 = 86_400;

fn at(secs: i64) -> Timestamp {
    Timestamp { secs, nanos: 0 }
}

fn entry(url: &str, title: &str, snippet: &str, tier: Tier, secs: i64) -> IndexEntry {
    IndexEntry {
        url: url.to_string(),
        domain: "example.com".to_string(),
        title: title.to_string(),
        snippet: snippet.to_string(),
        tier,
        last_seen: at(secs),
        score: 20,
        tags: vec!["tag".to_string()],
    }
}

fn weight(hit: &SearchHit) -> f32 {
    let tf: f32 = hit
        .counts
        .iter()
        .map(|&n| if n > 0 { 1.0 + (n as f32).ln() } else { 0.0 })
        .sum();
    tf * (tier_boost(hit.tier) as f32 / 20.0) + hit.score as f32 / 20.0
}

fn weigh(hit: &SearchHit) -> u64 {
    weight(hit).to_bits() as u64
}

fn urls(index: &SearchIndex, query: &str, limit: usize) -> Vec<String> {
    index.search(query, limit, at(100), weigh).into_iter().map(|r| r.url).collect()
}

#[test]
fn tiers_weigh_differently() {
    assert_eq!(tier_boost(Tier::Cached), 40);
    assert_eq!(tier_boost(Tier::Indexed), 20);
    assert_eq!(tier_boost(Tier::Known), 10);
}

#[test]
fn words_are_searched_for() {
    let mut index = SearchIndex::new();
    index.upsert(entry("u1", "Rust book", "about rust", Tier::Indexed, 0));
    index.upsert(entry("u2", "Other", "RUST once", Tier::Indexed, 0));
    index.upsert(entry("u3", "Rust", "kept", Tier::Cached, 0));
    index.upsert(entry("u4", "Rust", "", Tier::Known, 0));
    index.upsert(entry("u5", "Nothing", "at all", Tier::Indexed, 0));
    assert_eq!(urls(&index, "rust", 10), vec!["u3", "u1", "u2"]);
    assert_eq!(urls(&index, "RUST", 1), vec!["u3"]);
    assert_eq!(urls(&index, " \t", 10), Vec::<String>::new());
    assert_eq!(urls(&index, "absent", 10), Vec::<String>::new());
    assert_eq!(urls(&index, "example.com", 10), vec!["u3", "u1", "u2", "u5"]);
    let results = index.search("rust", 10, Timestamp { secs: 99, nanos: 999_999_999 }, weigh);
    assert_eq!(results[0].age_secs, 99);
    assert_eq!(results[0].tags, vec!["tag"]);
    assert_eq!(results[0].tier, Tier::Cached);
    assert_eq!(f32::from_bits(results[0].score as u32), 3.0);
    assert_eq!(f32::from_bits(results[1].score as u32), 1.0 + 2.0f32.ln() + 1.0);
}

#[test]
fn hits_tell_the_counts() {
    let mut index = SearchIndex::new();
    index.upsert(entry("u1", "aaaa", "b", Tier::Known, 0));
    let hits = index.find_hits("aa B x");
    assert_eq!(hits.len(), 1);
    assert_eq!(hits[0].slot, 0);
    assert_eq!(hits[0].counts, vec![2, 1, 1]);
    assert_eq!(hits[0].score, 20);
    assert_eq!(hits[0].tier, Tier::Known);
}

#[test]
fn equal_weights_keep_their_order() {
    let mut index = SearchIndex::new();
    for url in ["a", "b", "c"] {
        index.upsert(entry(url, "same", "text", Tier::Indexed, 0));
    }
    let hits = index.find_hits("same");
    let ranked = index.rank_hits(&hits, &vec![5, 9, 5], 3, at(0));
    let order: Vec<&str> = ranked.iter().map(|r| r.url.as_str()).collect();
    assert_eq!(order, vec!["b", "a", "c"]);
    let short = index.rank_hits(&hits, &vec![5, 9, 5], 2, at(0));
    assert_eq!(short.len(), 2);
    assert_eq!(short[1].url, "a");
}

#[test]
fn news_never_demote() {
    let mut index = SearchIndex::new();
    let mut first = entry("u", "Old", "old", Tier::Cached, 0);
    first.score = 30;
    index.upsert(first);
    index.upsert(entry("u", "New", "new", Tier::Indexed, 5));
    assert_eq!(index.entry_count(), 1);
    assert_eq!(index.get_title("u"), Some("New".to_string()));
    assert_eq!(index.get_title("v"), None);
    let kept = index.save();
    assert_eq!(kept[0].tier, Tier::Cached);
    assert_eq!(kept[0].score, 30);
    assert_eq!(kept[0].last_seen, at(5));
    let mut better = entry("u", "Best", "", Tier::Indexed, 6);
    better.score = 31;
    index.upsert(better);
    assert_eq!(index.save()[0].score, 31);
}

#[test]
fn links_make_pages_known() {
    let mut index = SearchIndex::new();
    index.add_known("u", "d", "anchor", at(7));
    index.add_known("u", "d", "other", at(8));
    assert_eq!(index.known_count(), 1);
    assert_eq!(index.cached_count(), 0);
    let kept = index.save();
    assert_eq!(kept[0].score, 4);
    assert_eq!(kept[0].title, "anchor");
    assert_eq!(kept[0].last_seen, at(7));
    index.mark_cached("u");
    index.mark_cached("v");
    assert_eq!(index.known_count(), 0);
    assert_eq!(index.cached_count(), 1);
    assert_eq!(index.entry_count(), 1);
}

#[test]
fn stale_and_known_pages_come_up() {
    let mut index = SearchIndex::new();
    index.upsert(entry("cached", "", "", Tier::Cached, 0));
    index.upsert(entry("fresh", "", "", Tier::Indexed, 10 * DAY));
    index.upsert(entry("edge", "", "", Tier::Indexed, 8 * DAY));
    index.upsert(entry("stale", "t", "s", Tier::Indexed, 8 * DAY - 1));
    index.upsert(entry("known", "", "", Tier::Known, 11 * DAY));
    let mut found = index.candidates_for_crawl(10, at(11 * DAY));
    found.sort();
    assert_eq!(
        found,
        vec![
            ("known".to_string(), String::new(), String::new()),
            ("stale".to_string(), "t".to_string(), "s".to_string()),
        ]
    );
    assert_eq!(index.candidates_for_crawl(1, at(11 * DAY)).len(), 1);
    assert!(index.candidates_for_crawl(0, at(11 * DAY)).is_empty());
}

#[test]
fn order_of_candidates_is_that_of_the_hashes() {
    let mut index = SearchIndex::new();
    let mut expected: Vec<(u64, String)> = Vec::new();
    for n in 0..20 {
        let url = format!("https://example.com/{}", n);
        index.upsert(entry(&url, "", "", Tier::Known, 0));
        let mut hasher = DefaultHasher::new();
        url.hash(&mut hasher);
        1234u64.hash(&mut hasher);
        expected.push((hasher.finish(), url));
    }
    expected.sort();
    let found: Vec<String> =
        index.candidates_for_crawl(20, at(1234)).into_iter().map(|c| c.0).collect();
    assert_eq!(found, expected.into_iter().map(|e| e.1).collect::<Vec<String>>());
}

#[test]
fn an_index_is_kept() {
    let mut index = SearchIndex::new();
    index.upsert(entry("a", "t", "s", Tier::Indexed, 3));
    index.upsert(entry("b", "", "", Tier::Known, 4));
    let again = SearchIndex::load(&index.save());
    assert_eq!(again.entry_count(), 2);
    assert_eq!(again.get_title("a"), Some("t".to_string()));
    let twice = SearchIndex::load(&vec![
        entry("a", "first", "", Tier::Cached, 0),
        entry("a", "second", "", Tier::Known, 0),
    ]);
    assert_eq!(twice.entry_count(), 1);
    assert_eq!(twice.get_title("a"), Some("second".to_string()));
    assert_eq!(twice.known_count(), 1);
}

#[test]
fn ages_are_rounded_towards_nought() {
    let now = Timestamp { secs: 10, nanos: 0 };
    assert_eq!(now.secs_since(&Timestamp { secs: 8, nanos: 1 }), 1);
    assert_eq!(now.secs_since(&Timestamp { secs: 11, nanos: 999_999_999 }), -1);
    assert_eq!(now.nanos_since(&Timestamp { secs: 9, nanos: 1 }), 999_999_999);
    assert_eq!(Timestamp { secs: i64::MAX, nanos: 0 }.secs_since(&at(i64::MIN)), i64::MAX);
    assert_eq!(at(i64::MIN).secs_since(&at(i64::MAX)), i64::MIN);
}

#[test]
fn what_is_taken_in_is_found() {
    let mut index = SearchIndex::new();
    index.upsert(entry("u", "Old", "text", Tier::Indexed, 0));
    index.upsert(entry("u", "Fresh title", "text", Tier::Indexed, 1));
    assert_eq!(urls(&index, "old", 9), Vec::<String>::new());
    assert_eq!(urls(&index, "FRESH", 9), vec!["u"]);
    assert_eq!(index.save()[0].title, "Fresh title");
}

#[test]
fn different_candidates_come_up() {
    let mut index = SearchIndex::new();
    for url in ["a", "b", "c"] {
        index.upsert(entry(url, "", "", Tier::Known, 0));
    }
    let mut seen: Vec<String> =
        (0..50).map(|secs| index.candidates_for_crawl(1, at(secs)).remove(0).0).collect();
    seen.sort();
    seen.dedup();
    assert_eq!(seen, vec!["a", "b", "c"]);
    let mut all: Vec<String> =
        index.candidates_for_crawl(9, at(7)).into_iter().map(|c| c.0).collect();
    all.sort();
    assert_eq!(all, vec!["a", "b", "c"]);
}

#[test]
fn smaller_limits_give_the_beginning() {
    let mut index = SearchIndex::new();
    for n in 0..9 {
        let snippet = "word ".repeat(n % 4 + 1);
        index.upsert(entry(&format!("u{}", n), "", &snippet, Tier::Indexed, 0));
    }
    let all = urls(&index, "word", usize::MAX);
    assert_eq!(all.len(), 9);
    for limit in 0..12 {
        assert_eq!(urls(&index, "word", limit), all[..limit.min(9)].to_vec());
    }
}

#[test]
fn queries_are_matched_by_word() {
    assert!(matches_query("zebra RUST", "The Rust book", ""));
    assert!(matches_query("rust", "", "trusty"));
    assert!(!matches_query("zebra", "Rust guide", "a.com"));
    assert!(!matches_query("", "title", "snippet"));
}
