use db_sync::codec::{document_to_sql, row_to_document};
use db_sync::codec::documents_to_sql;
use db_sync::decode::{
    decode_batch, decode_insert, decode_rows, read_names, read_rows, read_values, statement_rows,
    DecodedRow, DecodedRows,
};
use db_sync::store::DocumentStore;
use db_sync::task::{export_table, import_table};
use db_sync::document::{Document, Field, SqlProvider, Value};
use db_sync::scan::{read_blob, read_literal, read_number, read_quoted, word_at};
use db_sync::schema::{ColumnDef, SqlType, TableSchema};

fn chars(s: &str) -> Vec<char> {
    s.chars().collect()
}

fn col(name: &str, sql_type: SqlType, nullable: bool) -> ColumnDef {
    ColumnDef { name: String::from(name), sql_type, nullable, is_primary_key: false }
}

fn field(name: &str, value: Value) -> Field {
    Field { name: String::from(name), value }
}

fn text(s: &str) -> Value {
    Value::Text(String::from(s))
}

fn schema() -> TableSchema {
    TableSchema::new(
        String::from("it`em\"s"),
        vec![
            col("id", SqlType::Integer, false),
            col("na`me", SqlType::Text, false),
            col("price", SqlType::Integer, true),
            col("weight", SqlType::Float, true),
            col("icon", SqlType::Blob, true),
            col("tradable", SqlType::Boolean, false),
            col("created", SqlType::DateTime, true),
        ],
        true,
    )
}

fn documents() -> Vec<Document> {
    let make = |id: i64, name: &str, price: Value, weight: Value, icon: Value, t: bool, c: Value| Document {
        fields: vec![
            field("id", Value::Integer(id)),
            field("na`me", text(name)),
            field("price", price),
            field("weight", weight),
            field("icon", icon),
            field("tradable", Value::Boolean(t)),
            field("created", c),
        ],
    };
    vec![
        make(
            1,
            "plain",
            Value::Integer(5),
            Value::Float(String::from("1.5")),
            Value::Blob(vec![1, 2, 255]),
            true,
            Value::DateTime(String::from("2024-02-29 23:59:59")),
        ),
        make(i64::MIN, "", Value::Null, Value::Null, Value::Null, false, Value::Null),
        make(
            i64::MAX,
            "it's, a \\ 'trap'), (\\\\ \"x\" `y` NULL -- ;",
            Value::Integer(-0),
            Value::Float(String::from("-000.000")),
            Value::Blob(vec![]),
            false,
            Value::DateTime(String::from("0000-00-00 00:00:00")),
        ),
        make(
            0,
            "ünï¢ødé ✓ '' \\'",
            Value::Integer(-1),
            Value::Float(String::from("12345678901234567890.5")),
            Value::Blob((0u8..=255).collect()),
            true,
            Value::Null,
        ),
    ]
}

#[test]
fn export_then_import_gives_the_document_back() {
    let s = schema();
    for p in [SqlProvider::MySql, SqlProvider::Sqlite] {
        for d in documents() {
            let sql = document_to_sql(&d, &s, p).unwrap();
            let row = decode_insert(&sql, p).unwrap();
            assert_eq!(row.table, s.name);
            let names: Vec<String> = s.columns.iter().map(|c| c.name.clone()).collect();
            assert_eq!(row.columns, names);
            assert_eq!(row_to_document(row.values, &s), Ok(d));
        }
    }
}

#[test]
fn decode_insert_reads_a_mysql_statement() {
    let sql = "INSERT INTO `t` (`a`, `b``c`, `d`, `e`, `f`, `g`) VALUES (-7, 'x''y\\\\z', NULL, X'0AFF', TRUE, 2.50);";
    assert_eq!(
        decode_insert(sql, SqlProvider::MySql),
        Some(DecodedRow {
            table: String::from("t"),
            columns: vec![
                String::from("a"),
                String::from("b`c"),
                String::from("d"),
                String::from("e"),
                String::from("f"),
                String::from("g"),
            ],
            values: vec![
                Value::Integer(-7),
                text("x'y\\z"),
                Value::Null,
                Value::Blob(vec![0x0a, 0xff]),
                Value::Boolean(true),
                Value::Float(String::from("2.50")),
            ],
        })
    );
}

#[test]
fn decode_insert_reads_a_sqlite_statement() {
    let sql = "INSERT INTO \"t\" (\"a\", \"b\") VALUES (1, 'x\\y');";
    assert_eq!(
        decode_insert(sql, SqlProvider::Sqlite),
        Some(DecodedRow {
            table: String::from("t"),
            columns: vec![String::from("a"), String::from("b")],
            values: vec![Value::Integer(1), text("x\\y")],
        })
    );
    assert_eq!(decode_insert(sql, SqlProvider::MySql), None);
}

#[test]
fn decode_insert_reads_a_statement_without_columns() {
    assert_eq!(
        decode_insert("INSERT INTO `t` () VALUES ();", SqlProvider::MySql),
        Some(DecodedRow { table: String::from("t"), columns: vec![], values: vec![] })
    );
}

#[test]
fn decode_insert_refuses_other_text() {
    let p = SqlProvider::MySql;
    for bad in [
        "",
        "INSERT INTO",
        "insert into `t` () VALUES ();",
        "INSERT INTO `t` () VALUES ()",
        "INSERT INTO `t` () VALUES (); ",
        "INSERT INTO `t` () VALUES ();;",
        "INSERT INTO t () VALUES ();",
        "INSERT INTO `t () VALUES ();",
        "INSERT INTO `t`() VALUES ();",
        "INSERT INTO `t` (`a`) VALUES (1,2);",
        "INSERT INTO `t` (`a`,`b`) VALUES (1, 2);",
        "INSERT INTO `t` (`a`, ) VALUES (1);",
        "INSERT INTO `t` (`a`) VALUES (1, );",
        "INSERT INTO `t` (`a`) VALUES (1;",
        "INSERT INTO `t` (`a`) VALUES ('x);",
        "INSERT INTO `t` (`a`) VALUES ('x\\n');",
        "INSERT INTO `t` (`a`) VALUES (X'0');",
        "INSERT INTO `t` (`a`) VALUES (X'0a');",
        "INSERT INTO `t` (`a`) VALUES (X'00);",
        "INSERT INTO `t` (`a`) VALUES (1.);",
        "INSERT INTO `t` (`a`) VALUES (.5);",
        "INSERT INTO `t` (`a`) VALUES (-);",
        "INSERT INTO `t` (`a`) VALUES (9223372036854775808);",
        "INSERT INTO `t` (`a`) VALUES (null);",
        "INSERT INTO `t` (`a`) VALUES (NUL);",
        "INSERT INTO `t` (`a`) VALUES (TRUE FALSE);",
        "INSERT INTO `t` (`a`) VALUES (DEFAULT);",
        "INSERT INTO `t` (`a`) VALUES (1), (2);",
        "INSERT INTO \"t\" (\"a\") VALUES (1);",
    ] {
        assert_eq!(decode_insert(bad, p), None, "{}", bad);
    }
}

#[test]
fn decode_insert_does_not_require_matching_counts() {
    let row = decode_insert("INSERT INTO `t` (`a`) VALUES (1, 2);", SqlProvider::MySql).unwrap();
    assert_eq!(row.columns.len(), 1);
    assert_eq!(row.values, vec![Value::Integer(1), Value::Integer(2)]);
}

#[test]
fn read_quoted_stops_at_the_closing_mark() {
    let s = chars("x'a''b'c");
    assert_eq!(read_quoted(&s, 1, '\'', false), Some((chars("a'b"), 7)));
    assert_eq!(read_quoted(&s, 0, '\'', false), None);
    assert_eq!(read_quoted(&s, 6, '\'', false), None);
    assert_eq!(read_quoted(&s, 8, '\'', false), None);
    assert_eq!(read_quoted(&s, 99, '\'', false), None);
    let s = chars("'a\\\\b'");
    assert_eq!(read_quoted(&s, 0, '\'', true), Some((chars("a\\b"), 6)));
    assert_eq!(read_quoted(&s, 0, '\'', false), Some((chars("a\\\\b"), 6)));
    let s = chars("'a\\'");
    assert_eq!(read_quoted(&s, 0, '\'', true), None);
    assert_eq!(read_quoted(&s, 0, '\'', false), Some((chars("a\\"), 4)));
    assert_eq!(read_quoted(&chars("''"), 0, '\'', true), Some((vec![], 2)));
    assert_eq!(read_quoted(&chars("'''"), 0, '\'', true), None);
}

#[test]
fn read_blob_wants_pairs_of_upper_case_digits() {
    assert_eq!(read_blob(&chars("X'00FF10'"), 0), Some((vec![0, 255, 16], 9)));
    assert_eq!(read_blob(&chars("X''"), 0), Some((vec![], 3)));
    assert_eq!(read_blob(&chars("X'0'"), 0), None);
    assert_eq!(read_blob(&chars("X'ff'"), 0), None);
    assert_eq!(read_blob(&chars("X'00"), 0), None);
    assert_eq!(read_blob(&chars("x'00'"), 0), None);
    assert_eq!(read_blob(&chars("X"), 0), None);
    assert_eq!(read_blob(&chars("X'G0'"), 0), None);
    assert_eq!(read_blob(&chars("..X'AB'.."), 2), Some((vec![0xab], 7)));
}

#[test]
fn read_number_tells_fractions_from_whole_numbers() {
    assert_eq!(read_number(&chars("12,"), 0), Some((Value::Integer(12), 2)));
    assert_eq!(read_number(&chars("-12)"), 0), Some((Value::Integer(-12), 3)));
    assert_eq!(read_number(&chars("1.25)"), 0), Some((Value::Float(String::from("1.25")), 4)));
    assert_eq!(read_number(&chars("-0.0"), 0), Some((Value::Float(String::from("-0.0")), 4)));
    assert_eq!(read_number(&chars("1.x"), 0), None);
    assert_eq!(read_number(&chars("-x"), 0), None);
    assert_eq!(read_number(&chars(""), 0), None);
    assert_eq!(read_number(&chars("1"), 5), None);
    assert_eq!(read_number(&chars("99999999999999999999"), 0), None);
    assert_eq!(read_number(&chars("1.2.3"), 0), Some((Value::Float(String::from("1.2")), 3)));
}

#[test]
fn read_literal_by_its_first_character() {
    let p = SqlProvider::MySql;
    assert_eq!(read_literal(&chars("NULL"), 0, p), Some((Value::Null, 4)));
    assert_eq!(read_literal(&chars("TRUE"), 0, p), Some((Value::Boolean(true), 4)));
    assert_eq!(read_literal(&chars("FALSE"), 0, p), Some((Value::Boolean(false), 5)));
    assert_eq!(read_literal(&chars("FALS"), 0, p), None);
    assert_eq!(read_literal(&chars("'a'"), 0, p), Some((text("a"), 3)));
    assert_eq!(read_literal(&chars("X'01'"), 0, p), Some((Value::Blob(vec![1]), 5)));
    assert_eq!(read_literal(&chars("0"), 0, p), Some((Value::Integer(0), 1)));
    assert_eq!(read_literal(&chars("?"), 0, p), None);
    assert_eq!(read_literal(&chars("'a\\\\'"), 0, SqlProvider::Sqlite), Some((text("a\\\\"), 5)));
    assert_eq!(read_literal(&chars("'a\\\\'"), 0, p), Some((text("a\\"), 5)));
}

#[test]
fn read_names_and_values_read_lists() {
    let s = chars("(`a`, `b`)");
    assert_eq!(read_names(&s, 1, '`'), Some((vec![String::from("a"), String::from("b")], 10)));
    assert_eq!(read_names(&chars(")"), 0, '`'), Some((vec![], 1)));
    assert_eq!(read_names(&chars("`a`,`b`)"), 0, '`'), None);
    assert_eq!(read_names(&chars("`a`"), 0, '`'), None);
    assert_eq!(read_names(&chars("`a`)"), 9, '`'), None);
    let s = chars("1, 'x, y', NULL)");
    assert_eq!(
        read_values(&s, 0, SqlProvider::Sqlite),
        Some((vec![Value::Integer(1), text("x, y"), Value::Null], 16))
    );
    assert_eq!(read_values(&chars("1, )"), 0, SqlProvider::Sqlite), None);
}

#[test]
fn word_at_compares_in_place() {
    let s = chars("abcabc");
    assert!(word_at(&s, 3, &chars("abc")));
    assert!(word_at(&s, 6, &chars("")));
    assert!(!word_at(&s, 4, &chars("abc")));
    assert!(!word_at(&s, 1, &chars("abc")));
}

#[test]
fn decode_batch_reads_several_rows() {
    let sql = "INSERT INTO `t` (`a`, `b`) VALUES (1, 'x'), (2, '), ('), (3, NULL);";
    assert_eq!(
        decode_batch(sql, SqlProvider::MySql),
        Some(DecodedRows {
            table: String::from("t"),
            columns: vec![String::from("a"), String::from("b")],
            rows: vec![
                vec![Value::Integer(1), text("x")],
                vec![Value::Integer(2), text("), (")],
                vec![Value::Integer(3), Value::Null],
            ],
        })
    );
}

#[test]
fn decode_batch_reads_a_statement_of_one_row() {
    let sql = "INSERT INTO \"t\" (\"a\") VALUES (1);";
    let one = decode_insert(sql, SqlProvider::Sqlite).unwrap();
    let many = decode_batch(sql, SqlProvider::Sqlite).unwrap();
    assert_eq!(many.table, one.table);
    assert_eq!(many.columns, one.columns);
    assert_eq!(many.rows, vec![one.values]);
    let empty = decode_batch("INSERT INTO `t` () VALUES (), ();", SqlProvider::MySql).unwrap();
    assert_eq!(empty.rows, vec![vec![], vec![]]);
}

#[test]
fn decode_batch_refuses_other_text() {
    let p = SqlProvider::MySql;
    for bad in [
        "",
        "INSERT INTO `t` (`a`) VALUES ;",
        "INSERT INTO `t` (`a`) VALUES (1)",
        "INSERT INTO `t` (`a`) VALUES (1),(2);",
        "INSERT INTO `t` (`a`) VALUES (1), ;",
        "INSERT INTO `t` (`a`) VALUES (1), (2); ",
        "INSERT INTO `t` (`a`) VALUES (1) (2);",
        "INSERT INTO `t` (`a`) VALUES 1, 2;",
        "INSERT INTO `t` (`a`) VALUES (1), (2;",
        "CREATE TABLE `t` (`a` BIGINT);",
    ] {
        assert_eq!(decode_batch(bad, p), None, "{}", bad);
    }
}

#[test]
fn read_rows_reads_up_to_the_semicolon() {
    let s = chars("(1), (2, 3);x");
    assert_eq!(
        read_rows(&s, 0, SqlProvider::Sqlite),
        Some((vec![vec![Value::Integer(1)], vec![Value::Integer(2), Value::Integer(3)]], 12))
    );
    assert_eq!(read_rows(&s, 5, SqlProvider::Sqlite), Some((vec![vec![Value::Integer(2), Value::Integer(3)]], 12)));
    assert_eq!(read_rows(&s, 1, SqlProvider::Sqlite), None);
    assert_eq!(read_rows(&s, 99, SqlProvider::Sqlite), None);
    assert_eq!(read_rows(&chars(";"), 0, SqlProvider::Sqlite), None);
}

#[test]
fn statement_rows_takes_a_created_table_as_no_rows() {
    let p = SqlProvider::MySql;
    assert_eq!(statement_rows("CREATE TABLE `t` (`a` BIGINT);", p), Some(vec![]));
    assert_eq!(statement_rows("CREATE TABLE ", p), Some(vec![]));
    assert_eq!(statement_rows("CREATE TABLE", p), None);
    assert_eq!(statement_rows("DROP TABLE `t`;", p), None);
    assert_eq!(
        statement_rows("INSERT INTO `t` (`a`) VALUES (1), (2);", p),
        Some(vec![vec![Value::Integer(1)], vec![Value::Integer(2)]])
    );
}

#[test]
fn decode_rows_joins_the_rows_of_all_statements() {
    let p = SqlProvider::Sqlite;
    let statements = vec![
        String::from("CREATE TABLE \"t\" (\"a\" INTEGER);"),
        String::from("INSERT INTO \"t\" (\"a\") VALUES (1);"),
        String::from("INSERT INTO \"t\" (\"a\") VALUES (2), (3);"),
    ];
    assert_eq!(
        decode_rows(&statements, p),
        Some(vec![vec![Value::Integer(1)], vec![Value::Integer(2)], vec![Value::Integer(3)]])
    );
    assert_eq!(decode_rows(&vec![], p), Some(vec![]));
    let mut broken = statements.clone();
    broken.insert(1, String::from("INSERT INTO t VALUES (1);"));
    assert_eq!(decode_rows(&broken, p), None);
}

#[test]
fn export_then_import_gives_the_table_back() {
    let s = schema();
    for p in [SqlProvider::MySql, SqlProvider::Sqlite] {
        for with_schema in [false, true] {
            for count in [0usize, 1, 4] {
                let docs: Vec<Document> = documents().into_iter().take(count).collect();
                let mut store = DocumentStore::new();
                store.replace_table(s.name.as_str(), docs);
                let report = export_table(&s, &store, p, with_schema);
                assert_eq!(report.failure, None);
                let rows = decode_rows(&report.statements, p).unwrap();
                let mut fresh = DocumentStore::new();
                assert_eq!(import_table(&s, Some(rows), &mut fresh), None);
                assert_eq!(fresh.get_table(s.name.as_str()), store.get_table(s.name.as_str()));
            }
        }
    }
}

#[test]
fn documents_to_sql_reads_back_in_both_dialects() {
    let s = schema();
    for p in [SqlProvider::MySql, SqlProvider::Sqlite] {
        let statements = documents_to_sql(&documents(), &s, p).unwrap();
        let rows = decode_rows(&statements, p).unwrap();
        let back: Vec<Document> =
            rows.into_iter().map(|r| row_to_document(r, &s).unwrap()).collect();
        assert_eq!(back, documents());
    }
}
