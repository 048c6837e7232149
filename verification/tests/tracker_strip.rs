use meridian::crawler::MAX_BODY_BYTES;
use meridian::page::Element;
use meridian::page::MAX_PAGE_BYTES;
use meridian::query::escape;
use meridian::ranges::cut_ranges;
use meridian::ranges::merge_ranges;
use meridian::tracker_strip::clean_url;
use meridian::tracker_strip::clean_url_if_short;
use meridian::tracker_strip::domain_is_tracker;
use meridian::tracker_strip::find_trackers;
use meridian::tracker_strip::find_url_attr;
use meridian::tracker_strip::host_is_tracker;
use meridian::tracker_strip::is_tracker_code;
use meridian::tracker_strip::is_tracker_element;
use meridian::tracker_strip::is_tracking_param;
use meridian::tracker_strip::is_tracking_pixel;
use meridian::tracker_strip::query_without_tracking;
use meridian::tracker_strip::rewrite_urls;
use meridian::tracker_strip::source_range;
use meridian::tracker_strip::source_ranges;
use meridian::tracker_strip::strip;
use meridian::tracker_strip::strip_elements;
use meridian::tracker_strip::MAX_GROWTH;
use meridian::tracker_strip::TrackerKind;
use url::Url;

fn element() -> Element {
    Element {
        src: None,
        href: None,
        content: None,
        width: None,
        height: None,
        inner_html: String::new(),
        outer_html: String::new(),
        text: String::new(),
    }
}

fn pairs(list: &[(&str, &str)]) -> Vec<(String, String)> {
    list.iter().map(|(k, v)| (k.to_string(), v.to_string())).collect()
}

#[test]
fn clean_url_removes_utm() {
    let input = "https://example.com/page?utm_source=google&utm_medium=cpc&id=123";
    let out = clean_url(input);
    assert!(out.contains("id=123"));
    assert!(!out.contains("utm_source"));
    assert!(!out.contains("utm_medium"));
}

#[test]
fn clean_url_no_params_unchanged() {
    let input = "https://example.com/page";
    assert_eq!(clean_url(input), input);
}

#[test]
fn clean_url_gives_the_rest_of_the_query() {
    assert_eq!(
        clean_url("https://example.com/page?utm_source=google&a=1&gclid=x&b=2#top"),
        "https://example.com/page?a=1&b=2#top"
    );
    assert_eq!(clean_url("https://example.com/?fbclid=1&UTM_Source=2"), "https://example.com/");
    assert_eq!(clean_url("https://example.com/?q"), "https://example.com/?q=");
    assert_eq!(clean_url("https://example.com/?q=a+b"), "https://example.com/?q=a%20b");
    assert_eq!(clean_url("HTTP://EXAMPLE.com"), "http://example.com/");
}

#[test]
fn clean_url_leaves_what_is_no_url() {
    assert_eq!(clean_url("not a url?utm_source=x"), "not a url?utm_source=x");
    assert_eq!(clean_url(""), "");
    assert_eq!(clean_url_if_short("/page?utm_source=x"), Some("/page?utm_source=x".to_string()));
    assert_eq!(
        clean_url_if_short("https://a.example/?ref=1&x=2"),
        Some("https://a.example/?x=2".to_string())
    );
}

#[test]
fn tracking_parameters_in_any_case() {
    assert!(is_tracking_param("utm_source"));
    assert!(is_tracking_param("GCLID"));
    assert!(is_tracking_param("igshid"));
    assert!(!is_tracking_param("utm_sourc"));
    assert!(!is_tracking_param("id"));
    assert!(!is_tracking_param(""));
}

#[test]
fn query_of_the_pairs_that_are_left() {
    let some = pairs(&[("a", "1"), ("ref", "2"), ("b", ""), ("si", "3")]);
    assert_eq!(query_without_tracking(&some), Some("a=1&b=".to_string()));
    let again = pairs(&[("a", "1"), ("b", "")]);
    assert_eq!(query_without_tracking(&again), Some("a=1&b=".to_string()));
    assert_eq!(query_without_tracking(&pairs(&[("gclid", "1")])), None);
    assert_eq!(query_without_tracking(&pairs(&[])), None);
}

#[test]
fn trackers_by_host() {
    assert!(host_is_tracker("google-analytics.com"));
    assert!(host_is_tracker("www.google-analytics.com"));
    assert!(!host_is_tracker("notgoogle-analytics.com"));
    assert!(!host_is_tracker("example.com"));
    assert!(domain_is_tracker("https://connect.facebook.net/en_US/fbevents.js"));
    assert!(domain_is_tracker("https://x.y.hotjar.com/a"));
    assert!(!domain_is_tracker("https://example.com/hotjar.com"));
    assert!(!domain_is_tracker("//hotjar.com/a.js"));
    assert!(!domain_is_tracker(""));
}

#[test]
fn pixels_and_code() {
    let mut image = element();
    image.width = Some(" 1 ".to_string());
    image.height = Some("0".to_string());
    assert!(is_tracking_pixel(&image));
    image.height = Some("10".to_string());
    assert!(!is_tracking_pixel(&image));
    image.height = None;
    assert!(!is_tracking_pixel(&image));
    assert!(is_tracker_code("window.gtag('x'); gtag(1)"));
    assert!(is_tracker_code("var a = 'GoogleAnalyticsObject'"));
    assert!(is_tracker_code("fbq('init')"));
    assert!(is_tracker_code("window._fbq = 1"));
    assert!(!is_tracker_code("gtag fbq"));
}

#[test]
fn places_of_elements() {
    let mut image = element();
    image.outer_html = "<img>".to_string();
    assert_eq!(source_range("\u{fc}<img>x<img>", &image), Some((2, 7)));
    assert_eq!(source_ranges("\u{fc}<img>x<img>", &image), vec![(2, 7), (8, 13)]);
    assert_eq!(source_range("<IMG>", &image), None);
    assert!(source_ranges("<IMG>", &image).is_empty());
    assert!(source_ranges("", &image).is_empty());
    assert!(source_ranges("x", &element()).is_empty());
}

#[test]
fn kinds_of_trackers() {
    let mut found = element();
    found.src = Some("https://static.hotjar.com/h.js".to_string());
    found.href = Some("https://clarity.ms".to_string());
    assert!(is_tracker_element(TrackerKind::Script, &found));
    assert!(is_tracker_element(TrackerKind::Hint, &found));
    assert!(!is_tracker_element(TrackerKind::Pixel, &found));
    found.src = None;
    assert!(!is_tracker_element(TrackerKind::Script, &found));
    found.inner_html = "x=_fbq".to_string();
    assert!(is_tracker_element(TrackerKind::Script, &found));
}

#[test]
fn places_of_trackers() {
    let html = "<script a><script b><img c><link d><link d><link e>";
    let mut script = element();
    script.src = Some("https://static.hotjar.com/h.js".to_string());
    script.inner_html = "fbq(1)".to_string();
    script.outer_html = "<script a>".to_string();
    let mut quiet = element();
    quiet.outer_html = "<script b>".to_string();
    let mut image = element();
    image.width = Some("1".to_string());
    image.height = Some("1".to_string());
    image.outer_html = "<img c>".to_string();
    let mut link = element();
    link.href = Some("https://clarity.ms".to_string());
    link.outer_html = "<link d>".to_string();
    let mut lost = element();
    lost.href = Some("https://clarity.ms".to_string());
    lost.outer_html = "<link f>".to_string();
    assert_eq!(
        find_trackers(html, &vec![script, quiet], &vec![image], &vec![link, lost]),
        vec![(0, 10), (20, 27), (27, 35), (35, 43)]
    );
}

#[test]
fn names_and_values_are_escaped() {
    assert_eq!(escape("a%b&c+d=e\t\n\r\u{fc} ", true), "a%25b%26c%2Bd%3De%09%0A%0D\u{fc} ");
    assert_eq!(escape("a=b", false), "a=b");
}

#[test]
fn merging_does_not_depend_on_order() {
    let once = merge_ranges(&vec![(5, 8), (1, 3), (2, 4), (8, 9), (6, 6)]);
    assert_eq!(merge_ranges(&vec![(6, 6), (2, 4), (8, 9), (5, 8), (1, 3), (1, 3)]), once);
    assert_eq!(merge_ranges(&once), once);
}

#[test]
fn ranges_are_merged() {
    assert_eq!(merge_ranges(&vec![]), vec![]);
    assert_eq!(merge_ranges(&vec![(5, 8), (1, 3), (2, 4), (8, 9)]), vec![(1, 4), (5, 9)]);
    assert_eq!(merge_ranges(&vec![(1, 10), (2, 3)]), vec![(1, 10)]);
    assert_eq!(merge_ranges(&vec![(7, 8), (1, 2)]), vec![(1, 2), (7, 8)]);
}

#[test]
fn ranges_are_cut_out() {
    assert_eq!(cut_ranges("0123456789", &vec![(5, 8), (1, 3), (2, 4)]), "0489");
    assert_eq!(cut_ranges("0123", &vec![]), "0123");
    assert_eq!(cut_ranges("0123", &vec![(0, 4)]), "");
    assert_eq!(cut_ranges("a\u{e9}b", &vec![(1, 3)]), "ab");
}

#[test]
fn first_address_is_found() {
    assert_eq!(find_url_attr("<a href=\"http://a.b/\">"), Some((9, 9, 20)));
    assert_eq!(
        find_url_attr("<form action=\"http://a\"><a href=\"https://b\">"),
        Some((14, 14, 22))
    );
    assert_eq!(find_url_attr("\u{fc}<a href=\"http://\u{fc}\">"), Some((11, 11, 20)));
    assert_eq!(find_url_attr("<a href=\"https://b"), None);
    assert_eq!(find_url_attr("<a href='https://b'> href=\"ftp://x\""), None);
}

#[test]
fn addresses_are_rewritten_in_place() {
    assert_eq!(
        rewrite_urls("<p><a href=\"https://a.example/x?utm_id=1&k=2\">a</a> <a href=\"/y\">b</a>"),
        "<p><a href=\"https://a.example/x?k=2\">a</a> <a href=\"/y\">b</a>"
    );
    let clean = "<a href=\"https://a.example/x?k=2\">a</a>";
    assert_eq!(rewrite_urls(clean), clean);
    assert_eq!(rewrite_urls("no links"), "no links");
}

#[test]
fn pages_are_stripped() {
    let html = "<html><body><img width=\"1\" height=\"1\"><form action=\"http://a.example/?gclid=1\">\
                <a href=\"https://b.example/?id=7&fbclid=2\">\u{fc}</a></form></body></html>";
    assert_eq!(
        strip(html, "https://c.example/"),
        "<html><body><form action=\"http://a.example/\">\
         <a href=\"https://b.example/?id=7\">\u{fc}</a></form></body></html>"
    );
}

#[test]
fn trackers_are_removed_and_nothing_else() {
    let html = "<p>a</p><script src=\"https://www.google-analytics.com/ga.js\"></script>\
                <script>gtag('c')</script><img width=\"1\" height=\"0\"><p>b</p>";
    assert_eq!(strip(html, "https://a.com/"), "<p>a</p><p>b</p>");
    let clean = "<p>a</p><script src=\"/own.js\"></script><img width=\"10\" height=\"1\">";
    assert_eq!(strip(clean, "https://a.com/"), clean);
}

#[test]
fn every_copy_of_a_tracker_is_removed() {
    let pixel = "<img width=\"1\" height=\"1\">";
    let html = format!("{}<p>\u{e9}</p>{}", pixel, pixel);
    assert_eq!(strip(&html, "https://a.com/"), "<p>\u{e9}</p>");
}

#[test]
fn hints_to_trackers_are_removed() {
    let html = "<link rel=\"preconnect\" href=\"https://www.googletagmanager.com\">\
                <link rel=\"dns-prefetch\" href=\"https://a.example\">\
                <link rel=\"stylesheet\" href=\"https://hotjar.com/x.css\">";
    assert_eq!(
        strip(html, "https://a.com/"),
        "<link rel=\"dns-prefetch\" href=\"https://a.example/\">\
         <link rel=\"stylesheet\" href=\"https://hotjar.com/x.css\">"
    );
}

#[test]
fn placed_trackers_are_removed() {
    let tag = "<script src=\"https://heap.io/a.js\"></script>";
    let html = format!("<b>x</b>{}<a href=\"https://a.example/?si=1\">", tag);
    let mut script = element();
    script.src = Some("https://heap.io/a.js".to_string());
    script.outer_html = tag.to_string();
    assert_eq!(
        strip_elements(&html, &vec![script], &vec![], &vec![]),
        "<b>x</b><a href=\"https://a.example/\">"
    );
}

#[test]
fn no_part_of_a_clean_query_names_a_tracker() {
    let some = pairs(&[("a", "1"), ("UTM_ID", "x"), ("b", "2"), ("_ga", "y")]);
    let query = query_without_tracking(&some).unwrap();
    let parts: Vec<&str> = query.split('&').collect();
    assert_eq!(parts, vec!["a=1", "b=2"]);
    for part in parts {
        assert!(!is_tracking_param(part.split('=').next().unwrap()));
    }
    for raw in [
        "https://a.example/?x=1%26gclid%3D2",
        "https://a.example/?%2575tm_source=1",
        "https://a.example/?ut%0Am_source=1&a%3Db=c=d",
        "https://a.example/?a=1%2B2+3&ref=4&%26=%25&utm_id",
    ] {
        let clean = Url::parse(&clean_url(raw)).unwrap();
        let left: Vec<(String, String)> = clean.query_pairs().into_owned().collect();
        let kept: Vec<(String, String)> = Url::parse(raw)
            .unwrap()
            .query_pairs()
            .into_owned()
            .filter(|(name, _)| !is_tracking_param(name))
            .collect();
        assert_eq!(left, kept);
        assert!(!left.is_empty());
    }
    assert_eq!(
        clean_url("https://a.example/?x=1%26gclid%3D2"),
        "https://a.example/?x=1%26gclid=2"
    );
    assert_eq!(clean_url("https://a.example/?u=a=b"), "https://a.example/?u=a=b");
}

#[test]
fn addresses_that_grow_are_cleaned_too() {
    for raw in [
        "https://\u{337f}\u{337f}\u{337f}.example/?utm_id=1",
        "https://\u{65e5}\u{672c}.example/\u{65e5}?\u{65e5}=\u{1f600}&ref=x#\u{672c}",
        "http://a.example/?< >'=^`%80%80%80%80&fbclid",
    ] {
        let page = format!("<a href=\"{}\">x</a>", raw);
        let clean = rewrite_urls(&page);
        assert_eq!(clean, format!("<a href=\"{}\">x</a>", clean_url(raw)));
        assert_ne!(clean, page);
        assert!(clean.len() <= MAX_GROWTH * page.len());
    }
    assert_eq!(MAX_GROWTH * MAX_BODY_BYTES, MAX_PAGE_BYTES);
}
