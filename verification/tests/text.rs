use db_sync::text::{chars_of, contains_text, lower_all, same_text, split_string};

fn strings(items: &[&str]) -> Vec<String> {
    items.iter().map(|s| String::from(*s)).collect()
}

#[test]
fn split_string_drops_empty_pieces() {
    assert_eq!(split_string(String::from("a,b,c"), ","), vec!["a", "b", "c"]);
    assert_eq!(split_string(String::from(",a,,b,"), ","), vec!["a", "b"]);
    assert_eq!(split_string(String::from(""), ","), Vec::<String>::new());
    assert_eq!(split_string(String::from(",,,"), ","), Vec::<String>::new());
    assert_eq!(split_string(String::from("abc"), ","), vec!["abc"]);
}

#[test]
fn split_string_takes_matches_from_the_left() {
    assert_eq!(split_string(String::from("aXXXb"), "XX"), vec!["a", "Xb"]);
    assert_eq!(split_string(String::from("a--b---c"), "--"), vec!["a", "b", "-c"]);
    assert_eq!(split_string(String::from("abab"), "abab"), Vec::<String>::new());
    assert_eq!(split_string(String::from("ab"), "abc"), vec!["ab"]);
}

#[test]
fn split_string_with_empty_pattern_gives_each_character() {
    assert_eq!(split_string(String::from("añb"), ""), vec!["a", "ñ", "b"]);
    assert_eq!(split_string(String::from(""), ""), Vec::<String>::new());
}

#[test]
fn split_string_agrees_with_std_split() {
    let cases = vec![
        ("a,b,c", ","),
        (",,a,,", ","),
        ("aaa", "aa"),
        ("aaaa", "aa"),
        ("xabcabcx", "abc"),
        ("héllo wörld", "ö"),
        ("abc", ""),
        ("", "x"),
        ("one, two, three", ", "),
    ];
    for (s, p) in cases {
        let expected: Vec<String> =
            s.split(p).filter(|t| !t.is_empty()).map(String::from).collect();
        assert_eq!(split_string(String::from(s), p), expected, "{:?} by {:?}", s, p);
    }
}

#[test]
fn chars_of_gives_the_characters() {
    assert_eq!(chars_of("añ€"), vec!['a', 'ñ', '€']);
    assert!(chars_of("").is_empty());
}

#[test]
fn same_text_compares_characters() {
    assert!(same_text("all", "all"));
    assert!(!same_text("all", "All"));
    assert!(!same_text("all", "al"));
}

#[test]
fn lower_all_folds_case() {
    assert_eq!(lower_all(&strings(&["ALL", "Players", "ÄB"])), vec!["all", "players", "äb"]);
}

#[test]
fn contains_text_finds_an_entry() {
    let v = strings(&["a", "bc"]);
    assert!(contains_text(&v, "bc"));
    assert!(!contains_text(&v, "b"));
    assert!(!contains_text(&Vec::new(), ""));
}
