use meridian::order::stable_order;
use meridian::text::begins_with;
use meridian::text::chars_of;
use meridian::text::contains;
use meridian::text::count_char;
use meridian::text::count_matches;
use meridian::text::ends_with;
use meridian::text::find_char;
use meridian::text::find_from;
use meridian::text::parse_number;
use meridian::text::same_text;
use meridian::text::same_text_but_case;
use meridian::text::split_full_lines;
use meridian::text::split_words;
use meridian::text::text_of;
use meridian::text::trim;

fn shown(list: Vec<Vec<char>>) -> Vec<String> {
    list.iter().map(|chars| text_of(chars)).collect()
}

#[test]
fn texts_and_characters() {
    assert_eq!(chars_of("a\u{fc}\u{1f600}"), vec!['a', '\u{fc}', '\u{1f600}']);
    assert_eq!(text_of(&['x', '\u{fc}']), "x\u{fc}");
    assert!(same_text("abc", "abc"));
    assert!(!same_text("abc", "abd"));
    assert!(!same_text("abc", "ab"));
    assert!(same_text_but_case("ABC", "abc"));
    assert!(!same_text_but_case("\u{dc}", "\u{fc}"));
}

#[test]
fn white_space_is_trimmed() {
    assert_eq!(text_of(trim(&chars_of(" \t\u{a0}a b\u{3000}\r\n"))), "a b");
    assert_eq!(text_of(trim(&chars_of("  "))), "");
    assert_eq!(text_of(trim(&chars_of("\u{200b}a"))), "\u{200b}a");
}

#[test]
fn texts_are_found() {
    let hay = chars_of("abcabc");
    assert_eq!(find_from(&hay, &['c', 'a'], 0), Some(2));
    assert_eq!(find_from(&hay, &['b'], 2), Some(4));
    assert_eq!(find_from(&hay, &['x'], 0), None);
    assert_eq!(find_from(&hay, &[], 6), Some(6));
    assert!(contains(&hay, "cab"));
    assert!(!contains(&hay, "cabx"));
    assert!(begins_with(&hay, "abc"));
    assert!(!begins_with(&hay, "bc"));
    assert!(ends_with(&hay, "bc"));
    assert!(!ends_with(&hay, "abcabcabc"));
    assert_eq!(find_char(&hay, 'c', 3), 5);
    assert_eq!(find_char(&hay, 'x', 0), 6);
    assert_eq!(count_char(&hay, 'b'), 2);
}

#[test]
fn matches_do_not_overlap() {
    assert_eq!(count_matches(&chars_of("aaaa"), &['a', 'a']), 2);
    assert_eq!(count_matches(&chars_of("ababa"), &['a', 'b', 'a']), 1);
    assert_eq!(count_matches(&chars_of("xyz"), &['a']), 0);
    assert_eq!(count_matches(&chars_of(""), &['a']), 0);
}

#[test]
fn words_and_lines() {
    assert_eq!(shown(split_words(&chars_of("  one\ttwo\u{2003}three\n"))), vec!["one", "two", "three"]);
    assert_eq!(shown(split_words(&chars_of(" \n"))), Vec::<String>::new());
    assert_eq!(shown(split_full_lines(&chars_of("a\r\n\nb c"))), vec!["a\r", "b c"]);
}

#[test]
fn numbers_are_read() {
    assert_eq!(parse_number(&chars_of("17")), Some(17));
    assert_eq!(parse_number(&chars_of("+017")), Some(17));
    assert_eq!(parse_number(&chars_of("18446744073709551615")), Some(u64::MAX));
    assert_eq!(parse_number(&chars_of("18446744073709551616")), None);
    assert_eq!(parse_number(&chars_of("99999999999999999999999")), None);
    assert_eq!(parse_number(&chars_of("")), None);
    assert_eq!(parse_number(&chars_of("+")), None);
    assert_eq!(parse_number(&chars_of("-1")), None);
    assert_eq!(parse_number(&chars_of("1.5")), None);
    assert_eq!(parse_number(&chars_of("1 ")), None);
}

#[test]
fn sorting_is_stable() {
    assert_eq!(stable_order(&vec![3, 1, 2, 1, 3]), vec![1, 3, 2, 0, 4]);
    assert_eq!(stable_order(&vec![]), Vec::<usize>::new());
}
