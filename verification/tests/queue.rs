use meridian::queue::CrawlQueue;
use meridian::queue::is_trap;

fn sorted(mut list: Vec<String>) -> Vec<String> {
    list.sort();
    list
}

#[test]
fn traps_are_seen() {
    assert!(is_trap("https://a.example/Calendar/2024"));
    assert!(is_trap("https://a.example/archive/1"));
    assert!(!is_trap("https://a.example/archive"));
    assert!(is_trap("https://a.example/?PHPSESSID=1"));
    assert!(is_trap("https://a.example/?x=1&to\u{212a}en=2"));
    assert!(is_trap("https://a.example/?inside=1"));
    assert!(!is_trap("https://a.example/session"));
    assert!(!is_trap("https://a.example/?a=1?session=2"));
    assert!(is_trap("https://a.example/1/2/3/4/5/6/7"));
    assert!(!is_trap("https://a.example/1/2/3/4/5/6"));
    assert!(is_trap("https://a.example/search?x=1"));
    assert!(is_trap("https://a.example/?q=1"));
    assert!(is_trap("https://a.example/?QUERY=1"));
    assert!(!is_trap("https://a.example/page?id=1"));
}

#[test]
fn best_come_first_and_only_once() {
    let mut queue = CrawlQueue::new();
    queue.push("https://a.example/", 20);
    queue.push("https://b.example/", 60);
    queue.push("https://c.example/", 10);
    queue.push("https://a.example/", 5);
    queue.push("https://c.example/", 70);
    assert_eq!(queue.pending_len(), 3);
    assert_eq!(queue.pop_batch(2), vec!["https://c.example/", "https://b.example/"]);
    assert_eq!(queue.pending_len(), 1);
    assert_eq!(queue.visited_len(), 2);
    queue.push("https://c.example/", 90);
    queue.push("https://d.example/", 1);
    assert_eq!(queue.pop_batch(5), vec!["https://a.example/", "https://d.example/"]);
    assert!(queue.pop_batch(5).is_empty());
    assert_eq!(queue.visited_len(), 4);
}

#[test]
fn only_web_addresses_are_taken() {
    let mut queue = CrawlQueue::new();
    queue.push("ftp://a.example/", 20);
    queue.push("https://a.example/calendar", 20);
    queue.push("", 20);
    assert_eq!(queue.pending_len(), 0);
    queue.push_many(&vec!["http://a.example".to_string(), "mailto:x".to_string()], 20);
    assert_eq!(queue.pending_len(), 1);
    assert!(queue.pop_batch(0).is_empty());
    assert_eq!(queue.pending_len(), 1);
}

#[test]
fn visited_urls_are_kept() {
    let mut queue = CrawlQueue::new();
    queue.push_many(&vec!["https://a.example".to_string(), "https://b.example".to_string()], 20);
    queue.pop_batch(2);
    let saved = queue.save_visited();
    assert_eq!(sorted(queue.save_visited()), vec!["https://a.example", "https://b.example"]);
    let mut again = CrawlQueue::load_visited(&saved);
    assert_eq!(again.visited_len(), 2);
    again.push("https://a.example", 20);
    assert_eq!(again.pending_len(), 0);
    again.push("https://c.example", 20);
    assert_eq!(again.pending_len(), 1);
}

#[test]
fn order_of_offers_does_not_matter() {
    let mut one = CrawlQueue::new();
    one.push("https://a.example", 7);
    one.push("https://b.example", 9);
    one.push("https://a.example", 11);
    let mut two = CrawlQueue::new();
    two.push("https://a.example", 11);
    two.push("https://b.example", 9);
    two.push("https://a.example", 7);
    assert_eq!(one.pop_batch(2), two.pop_batch(2));
}

#[test]
fn what_was_handed_out_does_not_come_back() {
    let mut queue = CrawlQueue::new();
    let mut seen: Vec<String> = Vec::new();
    for round in 0..5u64 {
        for n in 0..4 {
            queue.push(&format!("https://a.example/{}", n), round * 10 + n);
            queue.push(&format!("https://a.example/{}/{}", round, n), n);
        }
        for url in queue.pop_batch(3) {
            assert!(!seen.contains(&url));
            seen.push(url);
        }
    }
    assert_eq!(seen.len(), 15);
}
