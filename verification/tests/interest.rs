use meridian::interest::InterestGraph;
use meridian::interest::extract_domain;
use meridian::interest::is_stopword;
use meridian::interest::tokenize;

fn shown(entries: Vec<meridian::interest::InterestEntry>) -> Vec<(String, u64)> {
    entries.into_iter().map(|e| (e.term, e.score)).collect()
}

#[test]
fn tokens_are_telling_words() {
    assert_eq!(tokenize("The Rust-Book, from 2024: what's NEW?"), vec!["rust", "book", "2024"]);
    assert_eq!(tokenize("abc \u{fc}ber \u{e9}\u{e9}"), vec!["\u{fc}ber", "\u{e9}\u{e9}"]);
    assert_eq!(tokenize("\u{c4}RGER with"), vec!["\u{e4}rger"]);
    assert!(tokenize("").is_empty());
    assert!(is_stopword("your"));
    assert!(!is_stopword("rust"));
}

#[test]
fn domains_have_no_www() {
    assert_eq!(extract_domain("https://www.example.com/x"), Some("example.com".to_string()));
    assert_eq!(extract_domain("https://www.www.example.com"), Some("example.com".to_string()));
    assert_eq!(extract_domain("https://a.www.example.com"), Some("a.www.example.com".to_string()));
    assert_eq!(extract_domain("mailto:x@example.com"), None);
    assert_eq!(extract_domain("example.com"), None);
}

#[test]
fn scores_follow_the_weights() {
    let mut graph = InterestGraph::new();
    assert_eq!(graph.score("https://a.example", "rust", "rust"), 0);
    graph.record_query("rust rust compiler");
    assert_eq!(graph.score("https://a.example", "Rust", ""), 80);
    assert_eq!(graph.score("https://a.example", "", "Rust compiler"), 30);
    graph.record_visit("https://www.a.example/x", "Rust");
    assert_eq!(graph.score("https://a.example", "", ""), 60);
    assert_eq!(graph.score("https://a.example", "rust", "rust other"), 60 + 92 + 23);
    assert_eq!(graph.term_count(), 2);
    assert_eq!(graph.domain_count(), 1);
}

#[test]
fn visits_never_lower_a_score() {
    let mut graph = InterestGraph::new();
    graph.record_visit("https://a.example", "some title words");
    let before = graph.score("https://a.example", "title", "words");
    graph.record_visit("https://a.example", "unrelated");
    let after = graph.score("https://a.example", "title", "words");
    assert_eq!(after, before + 60);
    graph.record_query("nothing here");
    assert_eq!(graph.score("https://a.example", "title", "words"), after);
}

#[test]
fn top_interests() {
    let mut graph = InterestGraph::new();
    graph.record_query("verus rust rust");
    graph.record_visit("https://a.example", "compiler");
    graph.record_visit("https://b.example", "");
    graph.record_visit("https://b.example", "");
    assert_eq!(
        shown(graph.top_terms(2)),
        vec![("rust".to_string(), 20), ("verus".to_string(), 10)]
    );
    assert_eq!(shown(graph.top_terms(9)).len(), 3);
    assert_eq!(shown(graph.top_terms(9))[2], ("compiler".to_string(), 3));
    assert_eq!(shown(graph.top_domains(1)), vec![("b.example".to_string(), 20)]);
    assert!(graph.top_domains(0).is_empty());
}

#[test]
fn interests_are_kept() {
    let mut graph = InterestGraph::new();
    graph.record_query("verus rust rust");
    graph.record_visit("https://a.example", "compiler");
    let again = InterestGraph::load(&graph.save());
    assert_eq!(again.term_count(), 3);
    assert_eq!(again.domain_count(), 1);
    assert_eq!(shown(again.top_terms(3)), shown(graph.top_terms(3)));
    assert_eq!(again.score("https://a.example", "rust", ""), graph.score("https://a.example", "rust", ""));
}

#[test]
fn visits_and_scores_by_domain() {
    let mut graph = InterestGraph::new();
    graph.record_visit_to(&Some("a.example".to_string()), "");
    graph.record_visit_to(&None, "compiler");
    assert_eq!(graph.score_on(&Some("a.example".to_string()), "", ""), 60);
    assert_eq!(graph.score_on(&Some("b.example".to_string()), "compiler", ""), 12);
    assert_eq!(graph.score_on(&None, "", "compiler"), 3);
}

#[test]
fn words_of_joined_texts() {
    let (a, b) = ("The Rust-Book", "from 2024: Compilers");
    let mut both = tokenize(a);
    both.extend(tokenize(b));
    assert_eq!(tokenize(&format!("{} {}", a, b)), both);
    assert!(both.iter().all(|w| w.len() > 3
        && w.chars().all(|c| c.is_ascii_lowercase() || c.is_ascii_digit())));
}
