use db_sync::literal::{push_hex, push_literal, push_quoted, push_str};
use db_sync::document::{SqlProvider, Value};
use db_sync::numeral::{check_decimal, find_digits_end, parse_i64, push_digits, push_int};

fn chars(s: &str) -> Vec<char> {
    s.chars().collect()
}

fn text(v: &Vec<char>) -> String {
    v.iter().collect()
}

#[test]
fn push_int_writes_decimal_text() {
    for v in [0i64, 1, -1, 9, 10, -10, 12345, i64::MAX, i64::MIN, i64::MIN + 1] {
        let mut out = chars("x");
        push_int(&mut out, v);
        assert_eq!(text(&out), format!("x{}", v));
    }
}

#[test]
fn push_digits_writes_without_leading_zeros() {
    for v in [0u64, 7, 10, 100, 1009, u64::MAX] {
        let mut out = Vec::new();
        push_digits(&mut out, v);
        assert_eq!(text(&out), v.to_string());
    }
}

#[test]
fn parse_i64_reads_what_push_int_writes() {
    for v in [0i64, 5, -5, 1000, -99999, i64::MAX, i64::MIN] {
        let mut out = Vec::new();
        push_int(&mut out, v);
        let n = out.len();
        assert_eq!(parse_i64(&out, 0, n), Some(v));
    }
}

#[test]
fn parse_i64_reads_a_part_of_the_text() {
    let s = chars("ab-12cd");
    assert_eq!(parse_i64(&s, 2, 5), Some(-12));
    assert_eq!(parse_i64(&s, 3, 5), Some(12));
    assert_eq!(parse_i64(&s, 3, 4), Some(1));
    assert_eq!(parse_i64(&s, 2, 3), None);
    assert_eq!(parse_i64(&s, 2, 2), None);
    assert_eq!(parse_i64(&s, 2, 6), None);
    assert_eq!(parse_i64(&s, 0, 7), None);
}

#[test]
fn find_digits_end_stops_at_the_first_other_character() {
    let s = chars("12a345");
    assert_eq!(find_digits_end(&s, 0), 2);
    assert_eq!(find_digits_end(&s, 2), 2);
    assert_eq!(find_digits_end(&s, 3), 6);
    assert_eq!(find_digits_end(&s, 6), 6);
}

#[test]
fn check_decimal_wants_digits_on_both_sides() {
    for good in ["0.0", "-1.5", "123.456", "00.10"] {
        assert!(check_decimal(&chars(good)), "{}", good);
    }
    for bad in ["", "-", ".", "1", "1.", ".1", "-.1", "1.2.3", "1,5", "+1.5", " 1.5", "1.5 ", "1e5", "-1.-5"] {
        assert!(!check_decimal(&chars(bad)), "{}", bad);
    }
}

#[test]
fn push_quoted_doubles_marks_and_backslashes() {
    let mut out = Vec::new();
    push_quoted(&mut out, "a'b\\c\"d", '\'', true);
    assert_eq!(text(&out), "'a''b\\\\c\"d'");
    let mut out = Vec::new();
    push_quoted(&mut out, "a'b\\c\"d", '\'', false);
    assert_eq!(text(&out), "'a''b\\c\"d'");
    let mut out = Vec::new();
    push_quoted(&mut out, "", '`', false);
    assert_eq!(text(&out), "``");
    let mut out = chars("(");
    push_quoted(&mut out, "``", '`', false);
    assert_eq!(text(&out), "(``````");
}

#[test]
fn push_hex_writes_two_digits_for_each_byte() {
    let mut out = Vec::new();
    push_hex(&mut out, &vec![0x00, 0x09, 0x0a, 0x10, 0x9f, 0xff]);
    assert_eq!(text(&out), "00090A109FFF");
    let mut out = chars("X");
    push_hex(&mut out, &vec![]);
    assert_eq!(text(&out), "X");
}

#[test]
fn push_str_appends() {
    let mut out = chars("a");
    push_str(&mut out, "bç");
    assert_eq!(text(&out), "abç");
}

#[test]
fn push_literal_for_each_kind_of_value() {
    let cases: Vec<(Value, &str, &str)> = vec![
        (Value::Null, "NULL", "NULL"),
        (Value::Integer(-42), "-42", "-42"),
        (Value::Float(String::from("0.5")), "0.5", "0.5"),
        (Value::Text(String::from("it's \\")), "'it''s \\\\'", "'it''s \\'"),
        (Value::Blob(vec![0xde, 0xad]), "X'DEAD'", "X'DEAD'"),
        (Value::Boolean(true), "TRUE", "1"),
        (Value::Boolean(false), "FALSE", "0"),
        (Value::DateTime(String::from("2024-01-01 00:00:00")), "'2024-01-01 00:00:00'", "'2024-01-01 00:00:00'"),
    ];
    for (v, mysql, sqlite) in cases {
        let mut out = Vec::new();
        push_literal(&mut out, &v, SqlProvider::MySql);
        assert_eq!(text(&out), mysql);
        let mut out = Vec::new();
        push_literal(&mut out, &v, SqlProvider::Sqlite);
        assert_eq!(text(&out), sqlite);
    }
}
