use meridian::cache::CacheMeta;
use meridian::cache::PageCache;
use meridian::clock::Timestamp;
use std::collections::HashMap;

const HASH: &str = "0f115db062b7c0dd030b16878c99dea5c354b49dc37b38eb8846179c7783e9d7";
const HTML: &str =
    "./cache/0f115db062b7c0dd/0f115db062b7c0dd030b16878c99dea5c354b49dc37b38eb8846179c7783e9d7.html";
const META: &str =
    "./cache/0f115db062b7c0dd/0f115db062b7c0dd030b16878c99dea5c354b49dc37b38eb8846179c7783e9d7.json";

#[test]
fn pages_lie_under_their_hash() {
    assert_eq!(PageCache::url_hash("https://example.com/"), HASH);
    let (dir, html, meta) = PageCache::new().paths("https://example.com/");
    assert_eq!(dir, "./cache/0f115db062b7c0dd");
    assert_eq!(html, HTML);
    assert_eq!(meta, META);
}

#[test]
fn a_page_is_there_if_its_file_is() {
    let cache = PageCache::new();
    assert!(cache.contains("https://example.com/", |path: &str| path == HTML));
    assert!(!cache.contains("https://example.com/", |path: &str| path != HTML));
}

#[test]
fn what_is_stored_is_found() {
    let cache = PageCache::new();
    let now = Timestamp { secs: 5, nanos: 6 };
    let plan = cache.store("https://example.com/", "Title", "<p>\u{fc}</p>", now);
    assert_eq!(plan.dir, "./cache/0f115db062b7c0dd");
    assert_eq!(plan.meta.url, "https://example.com/");
    assert_eq!(plan.meta.title, "Title");
    assert_eq!(plan.meta.fetched_at, now);
    assert_eq!(plan.meta.content_length, 9);
    let mut disk: HashMap<String, String> = HashMap::new();
    disk.insert(plan.html_path, "<p>\u{fc}</p>".to_string());
    disk.insert(plan.meta_path, "meta".to_string());
    assert_eq!(
        cache.get_html("https://example.com/", |path: &str| disk.get(path).cloned()),
        Some("<p>\u{fc}</p>".to_string())
    );
    assert_eq!(cache.get_html("https://example.com/x", |path: &str| disk.get(path).cloned()), None);
    let meta = cache.get_meta("https://example.com/", |path: &str| {
        disk.get(path).map(|text| CacheMeta {
            url: text.clone(),
            title: String::new(),
            fetched_at: now,
            content_length: 0,
        })
    });
    assert_eq!(meta.unwrap().url, "meta");
}

#[test]
fn pages_are_counted() {
    let files = vec![
        ("a.html".to_string(), 10),
        ("a.json".to_string(), 100),
        (".html".to_string(), 1000),
        ("b.html".to_string(), 5),
        ("html".to_string(), 7),
    ];
    assert_eq!(PageCache::stats(&files), (2, 15));
    assert_eq!(PageCache::stats(&vec![]), (0, 0));
    let huge = vec![("a.html".to_string(), u64::MAX), ("b.html".to_string(), 1)];
    assert_eq!(PageCache::stats(&huge), (2, u64::MAX));
}

#[test]
fn paths_of_a_hash() {
    let (dir, html, meta) = PageCache::new().paths_under("0123456789abcdef77");
    assert_eq!(dir, "./cache/0123456789abcdef");
    assert_eq!(html, "./cache/0123456789abcdef/0123456789abcdef77.html");
    assert_eq!(meta, "./cache/0123456789abcdef/0123456789abcdef77.json");
    assert_eq!(
        PageCache::new().paths("abc").1,
        "./cache/ba7816bf8f01cfea/\
         ba7816bf8f01cfea414140de5dae2223b00361a396177a9cb410ff61f20015ad.html"
    );
}

#[test]
fn pages_are_read_back_and_counted_once() {
    let cache = PageCache::new();
    let now = Timestamp { secs: 5, nanos: 6 };
    let mut disk: HashMap<String, (String, u64)> = HashMap::new();
    for (url, html) in [("u1", "one"), ("u2", "second"), ("u1", "three")] {
        let plan = cache.store(url, "t", html, now);
        disk.insert(plan.html_path, (html.to_string(), html.len() as u64));
        disk.insert(plan.meta_path, (plan.meta.title, 100));
    }
    let read = |path: &str| disk.get(path).map(|file| file.0.clone());
    let on_disk = |path: &str| disk.contains_key(path);
    assert_eq!(cache.get_html("u1", read), Some("three".to_string()));
    assert_eq!(cache.get_html("u2", read), Some("second".to_string()));
    assert_eq!(cache.get_html("u3", read), None);
    assert!(cache.contains("u1", on_disk));
    assert!(!cache.contains("u3", on_disk));
    let files: Vec<(String, u64)> = disk
        .iter()
        .map(|(path, file)| (path.rsplit('/').next().unwrap().to_string(), file.1))
        .collect();
    assert_eq!(files.len(), 4);
    assert_eq!(PageCache::stats(&files), (2, 11));
}
