use db_sync::codec::{
    check_value, create_table_sql, document_to_sql, documents_to_sql, find_bad_document,
    find_fault, row_to_document, RowMismatch, TypeMismatch,
};
use db_sync::document::{check_datetime, coerce, Document, Field, SqlProvider, Value};
use db_sync::schema::{ColumnDef, SqlType, TableSchema};

fn col(name: &str, sql_type: SqlType, nullable: bool, key: bool) -> ColumnDef {
    ColumnDef { name: String::from(name), sql_type, nullable, is_primary_key: key }
}

fn items() -> TableSchema {
    TableSchema::new(
        String::from("items"),
        vec![
            col("id", SqlType::Integer, false, true),
            col("name", SqlType::Text, false, false),
            col("price", SqlType::Integer, true, false),
            col("weight", SqlType::Float, true, false),
            col("icon", SqlType::Blob, true, false),
            col("tradable", SqlType::Boolean, false, false),
            col("created", SqlType::DateTime, true, false),
        ],
        true,
    )
}

fn text(s: &str) -> Value {
    Value::Text(String::from(s))
}

fn field(name: &str, value: Value) -> Field {
    Field { name: String::from(name), value }
}

fn sword() -> Document {
    Document {
        fields: vec![
            field("id", Value::Integer(7)),
            field("name", text("O'Neil's \\ sword")),
            field("price", Value::Integer(-120)),
            field("weight", Value::Float(String::from("2.50"))),
            field("icon", Value::Blob(vec![0x00, 0x0f, 0xa0, 0xff])),
            field("tradable", Value::Boolean(true)),
            field("created", Value::DateTime(String::from("2024-02-29 23:59:59"))),
        ],
    }
}

#[test]
fn row_to_document_types_each_value() {
    let row = vec![
        Value::Integer(7),
        text("sword"),
        text("-120"),
        Value::Integer(3),
        Value::Blob(vec![1, 2]),
        Value::Integer(1),
        text("2024-02-29 23:59:59"),
    ];
    let doc = row_to_document(row, &items()).unwrap();
    assert_eq!(
        doc,
        Document {
            fields: vec![
                field("id", Value::Integer(7)),
                field("name", text("sword")),
                field("price", Value::Integer(-120)),
                field("weight", Value::Float(String::from("3.0"))),
                field("icon", Value::Blob(vec![1, 2])),
                field("tradable", Value::Boolean(true)),
                field("created", Value::DateTime(String::from("2024-02-29 23:59:59"))),
            ],
        }
    );
}

#[test]
fn row_to_document_keeps_null_in_nullable_columns() {
    let row = vec![
        Value::Integer(1),
        text("x"),
        Value::Null,
        Value::Null,
        Value::Null,
        Value::Boolean(false),
        Value::Null,
    ];
    let doc = row_to_document(row, &items()).unwrap();
    assert_eq!(doc.fields[2].value, Value::Null);
    assert_eq!(doc.fields[3].value, Value::Null);
    assert_eq!(doc.fields[5].value, Value::Boolean(false));
}

#[test]
fn row_to_document_refuses_text_for_a_whole_number() {
    let row = vec![
        Value::Integer(1),
        text("x"),
        text("abc"),
        Value::Null,
        Value::Null,
        Value::Boolean(false),
        Value::Null,
    ];
    assert_eq!(row_to_document(row, &items()), Err(TypeMismatch { column: 2 }));
}

#[test]
fn row_to_document_refuses_null_where_it_may_not_stand() {
    let row = vec![Value::Null];
    assert_eq!(row_to_document(row, &items()), Err(TypeMismatch { column: 0 }));
}

#[test]
fn row_to_document_refuses_a_row_of_the_wrong_length() {
    let short = vec![Value::Integer(1), text("x")];
    assert_eq!(row_to_document(short, &items()), Err(TypeMismatch { column: 2 }));
    let schema = TableSchema::new(String::from("t"), vec![col("a", SqlType::Text, true, false)], true);
    let long = vec![text("x"), text("y")];
    assert_eq!(row_to_document(long, &schema), Err(TypeMismatch { column: 1 }));
    assert_eq!(row_to_document(vec![], &schema), Err(TypeMismatch { column: 0 }));
    let none = TableSchema::new(String::from("t"), vec![], true);
    assert_eq!(row_to_document(vec![], &none), Ok(Document { fields: vec![] }));
}

#[test]
fn row_to_document_reports_the_first_field_at_fault() {
    let row = vec![
        Value::Integer(1),
        Value::Integer(2),
        text("abc"),
        Value::Null,
        Value::Null,
        Value::Boolean(false),
        Value::Null,
    ];
    assert_eq!(row_to_document(row, &items()), Err(TypeMismatch { column: 1 }));
}

#[test]
fn coerce_whole_numbers() {
    assert_eq!(coerce(text("0"), SqlType::Integer, false), Some(Value::Integer(0)));
    assert_eq!(coerce(text("-0"), SqlType::Integer, false), Some(Value::Integer(0)));
    assert_eq!(coerce(text("007"), SqlType::Integer, false), Some(Value::Integer(7)));
    assert_eq!(
        coerce(text("9223372036854775807"), SqlType::Integer, false),
        Some(Value::Integer(i64::MAX))
    );
    assert_eq!(
        coerce(text("-9223372036854775808"), SqlType::Integer, false),
        Some(Value::Integer(i64::MIN))
    );
    assert_eq!(coerce(text("9223372036854775808"), SqlType::Integer, false), None);
    assert_eq!(coerce(text("-9223372036854775809"), SqlType::Integer, false), None);
    assert_eq!(coerce(text("99999999999999999999999"), SqlType::Integer, false), None);
    assert_eq!(coerce(text("0000000000000000000000012"), SqlType::Integer, false), Some(Value::Integer(12)));
    assert_eq!(coerce(text(""), SqlType::Integer, false), None);
    assert_eq!(coerce(text("-"), SqlType::Integer, false), None);
    assert_eq!(coerce(text("+1"), SqlType::Integer, false), None);
    assert_eq!(coerce(text("1 "), SqlType::Integer, false), None);
    assert_eq!(coerce(text("1.0"), SqlType::Integer, false), None);
    assert_eq!(coerce(text("٣"), SqlType::Integer, false), None);
    assert_eq!(coerce(Value::Boolean(true), SqlType::Integer, false), None);
}

#[test]
fn coerce_fractions() {
    let f = |s: &str| Value::Float(String::from(s));
    assert_eq!(coerce(f("1.5"), SqlType::Float, false), Some(f("1.5")));
    assert_eq!(coerce(text("-0.25"), SqlType::Float, false), Some(f("-0.25")));
    assert_eq!(coerce(Value::Integer(-3), SqlType::Float, false), Some(f("-3.0")));
    assert_eq!(coerce(Value::Integer(i64::MIN), SqlType::Float, false), Some(f("-9223372036854775808.0")));
    assert_eq!(coerce(f("1."), SqlType::Float, false), None);
    assert_eq!(coerce(f(".5"), SqlType::Float, false), None);
    assert_eq!(coerce(f("1"), SqlType::Float, false), None);
    assert_eq!(coerce(f("1.2.3"), SqlType::Float, false), None);
    assert_eq!(coerce(f("1.5e3"), SqlType::Float, false), None);
    assert_eq!(coerce(f("--1.5"), SqlType::Float, false), None);
    assert_eq!(coerce(f(""), SqlType::Float, false), None);
    assert_eq!(coerce(f("1.5"), SqlType::Text, false), None);
}

#[test]
fn coerce_truth_values() {
    assert_eq!(coerce(Value::Integer(0), SqlType::Boolean, false), Some(Value::Boolean(false)));
    assert_eq!(coerce(Value::Integer(1), SqlType::Boolean, false), Some(Value::Boolean(true)));
    assert_eq!(coerce(Value::Integer(2), SqlType::Boolean, false), None);
    assert_eq!(coerce(text("1"), SqlType::Boolean, false), None);
    assert_eq!(coerce(Value::Boolean(true), SqlType::Boolean, true), Some(Value::Boolean(true)));
}

#[test]
fn coerce_dates_texts_and_bytes() {
    let d = |s: &str| Value::DateTime(String::from(s));
    assert_eq!(coerce(text("2024-01-31 08:05:00"), SqlType::DateTime, false), Some(d("2024-01-31 08:05:00")));
    assert_eq!(coerce(d("2024-01-31 08:05:00"), SqlType::DateTime, false), Some(d("2024-01-31 08:05:00")));
    assert_eq!(coerce(d("2024-01-31T08:05:00"), SqlType::DateTime, false), None);
    assert_eq!(coerce(text("2024-01-31"), SqlType::DateTime, false), None);
    assert_eq!(coerce(d("2024-01-31 08:05:00"), SqlType::Text, false), None);
    assert_eq!(coerce(text("x"), SqlType::Text, false), Some(text("x")));
    assert_eq!(coerce(text("x"), SqlType::Blob, false), None);
    assert_eq!(coerce(Value::Blob(vec![]), SqlType::Blob, false), Some(Value::Blob(vec![])));
    assert_eq!(coerce(Value::Null, SqlType::Text, true), Some(Value::Null));
    assert_eq!(coerce(Value::Null, SqlType::Text, false), None);
}

#[test]
fn check_datetime_looks_at_every_position() {
    let ok: Vec<char> = "1999-12-31 23:59:59".chars().collect();
    assert!(check_datetime(&ok));
    for i in 0..19 {
        let mut bad = ok.clone();
        bad[i] = 'x';
        assert!(!check_datetime(&bad), "position {}", i);
    }
    let long: Vec<char> = "1999-12-31 23:59:590".chars().collect();
    assert!(!check_datetime(&long));
}

#[test]
fn check_value_takes_a_value_of_the_declared_type_only() {
    assert!(check_value(&Value::Integer(1), SqlType::Integer, false));
    assert!(!check_value(&text("1"), SqlType::Integer, false));
    assert!(!check_value(&Value::Integer(1), SqlType::Boolean, false));
    assert!(!check_value(&Value::Integer(1), SqlType::Float, false));
    assert!(check_value(&Value::Float(String::from("0.1")), SqlType::Float, false));
    assert!(!check_value(&Value::Float(String::from("0.1x")), SqlType::Float, false));
    assert!(check_value(&Value::Null, SqlType::Blob, true));
    assert!(!check_value(&Value::Null, SqlType::Blob, false));
    assert!(!check_value(&text("2024-01-31 08:05:00"), SqlType::DateTime, false));
}

#[test]
fn document_to_sql_for_mysql() {
    let sql = document_to_sql(&sword(), &items(), SqlProvider::MySql).unwrap();
    assert_eq!(
        sql,
        "INSERT INTO `items` (`id`, `name`, `price`, `weight`, `icon`, `tradable`, `created`) \
         VALUES (7, 'O''Neil''s \\\\ sword', -120, 2.50, X'000FA0FF', TRUE, '2024-02-29 23:59:59');"
    );
}

#[test]
fn document_to_sql_for_sqlite() {
    let sql = document_to_sql(&sword(), &items(), SqlProvider::Sqlite).unwrap();
    assert_eq!(
        sql,
        "INSERT INTO \"items\" (\"id\", \"name\", \"price\", \"weight\", \"icon\", \"tradable\", \"created\") \
         VALUES (7, 'O''Neil''s \\ sword', -120, 2.50, X'000FA0FF', 1, '2024-02-29 23:59:59');"
    );
}

#[test]
fn document_to_sql_writes_null_and_false() {
    let schema = TableSchema::new(
        String::from("t"),
        vec![col("a", SqlType::Text, true, false), col("b", SqlType::Boolean, false, false)],
        true,
    );
    let doc = Document { fields: vec![field("a", Value::Null), field("b", Value::Boolean(false))] };
    assert_eq!(
        document_to_sql(&doc, &schema, SqlProvider::MySql).unwrap(),
        "INSERT INTO `t` (`a`, `b`) VALUES (NULL, FALSE);"
    );
    assert_eq!(
        document_to_sql(&doc, &schema, SqlProvider::Sqlite).unwrap(),
        "INSERT INTO \"t\" (\"a\", \"b\") VALUES (NULL, 0);"
    );
}

#[test]
fn document_to_sql_doubles_the_mark_in_names() {
    let schema = TableSchema::new(
        String::from("we`ird\"t"),
        vec![col("a`b\"c", SqlType::Integer, false, false)],
        true,
    );
    let doc = Document { fields: vec![field("a`b\"c", Value::Integer(i64::MIN))] };
    assert_eq!(
        document_to_sql(&doc, &schema, SqlProvider::MySql).unwrap(),
        "INSERT INTO `we``ird\"t` (`a``b\"c`) VALUES (-9223372036854775808);"
    );
    assert_eq!(
        document_to_sql(&doc, &schema, SqlProvider::Sqlite).unwrap(),
        "INSERT INTO \"we`ird\"\"t\" (\"a`b\"\"c\") VALUES (-9223372036854775808);"
    );
}

#[test]
fn document_to_sql_without_columns() {
    let schema = TableSchema::new(String::from("t"), vec![], true);
    let doc = Document { fields: vec![] };
    assert_eq!(
        document_to_sql(&doc, &schema, SqlProvider::MySql).unwrap(),
        "INSERT INTO `t` () VALUES ();"
    );
}

#[test]
fn document_to_sql_refuses_a_document_that_does_not_conform() {
    let schema = items();
    let mut doc = sword();
    doc.fields[3].value = Value::Float(String::from("1; DROP TABLE items"));
    assert_eq!(document_to_sql(&doc, &schema, SqlProvider::MySql), Err(TypeMismatch { column: 3 }));
    assert_eq!(find_fault(&doc, &schema), Some(3));
    let mut doc = sword();
    doc.fields[1].name = String::from("title");
    assert_eq!(document_to_sql(&doc, &schema, SqlProvider::Sqlite), Err(TypeMismatch { column: 1 }));
    let mut doc = sword();
    doc.fields.pop();
    assert_eq!(document_to_sql(&doc, &schema, SqlProvider::Sqlite), Err(TypeMismatch { column: 6 }));
    let mut doc = sword();
    doc.fields.push(field("extra", Value::Null));
    assert_eq!(find_fault(&doc, &schema), Some(7));
    assert_eq!(find_fault(&sword(), &schema), None);
}

#[test]
fn create_table_sql_with_a_counting_key() {
    let schema = items();
    assert_eq!(
        create_table_sql(&schema, SqlProvider::MySql),
        "CREATE TABLE `items` (`id` BIGINT NOT NULL PRIMARY KEY AUTO_INCREMENT, \
         `name` TEXT NOT NULL, `price` BIGINT, `weight` DOUBLE, `icon` BLOB, \
         `tradable` TINYINT(1) NOT NULL, `created` DATETIME);"
    );
    assert_eq!(
        create_table_sql(&schema, SqlProvider::Sqlite),
        "CREATE TABLE \"items\" (\"id\" INTEGER NOT NULL PRIMARY KEY AUTOINCREMENT, \
         \"name\" TEXT NOT NULL, \"price\" INTEGER, \"weight\" REAL, \"icon\" BLOB, \
         \"tradable\" INTEGER NOT NULL, \"created\" TEXT);"
    );
}

#[test]
fn create_table_sql_with_a_key_of_two_columns() {
    let schema = TableSchema::new(
        String::from("owned"),
        vec![
            col("player", SqlType::Integer, false, true),
            col("note", SqlType::Text, true, false),
            col("item", SqlType::Integer, false, true),
        ],
        false,
    );
    assert_eq!(
        create_table_sql(&schema, SqlProvider::MySql),
        "CREATE TABLE `owned` (`player` BIGINT NOT NULL, `note` TEXT, `item` BIGINT NOT NULL, \
         PRIMARY KEY (`player`, `item`));"
    );
}

#[test]
fn create_table_sql_with_a_text_key_or_none() {
    let schema = TableSchema::new(
        String::from("codes"),
        vec![col("code", SqlType::Text, false, true)],
        true,
    );
    assert_eq!(
        create_table_sql(&schema, SqlProvider::Sqlite),
        "CREATE TABLE \"codes\" (\"code\" TEXT NOT NULL, PRIMARY KEY (\"code\"));"
    );
    let schema = TableSchema::new(
        String::from("log"),
        vec![col("line", SqlType::Text, true, false)],
        false,
    );
    assert_eq!(create_table_sql(&schema, SqlProvider::MySql), "CREATE TABLE `log` (`line` TEXT);");
    let schema = TableSchema::new(String::from("nothing"), vec![], false);
    assert_eq!(create_table_sql(&schema, SqlProvider::MySql), "CREATE TABLE `nothing` ();");
}

fn pair(id: i64, name: &str) -> Document {
    Document { fields: vec![field("id", Value::Integer(id)), field("name", text(name))] }
}

fn pairs() -> TableSchema {
    TableSchema::new(
        String::from("npcs"),
        vec![col("id", SqlType::Integer, false, true), col("name", SqlType::Text, false, false)],
        true,
    )
}

#[test]
fn documents_to_sql_for_mysql_is_one_statement() {
    let docs = vec![pair(1, "Bob"), pair(2, "O'Hara"), pair(3, "")];
    assert_eq!(
        documents_to_sql(&docs, &pairs(), SqlProvider::MySql),
        Ok(vec![String::from(
            "INSERT INTO `npcs` (`id`, `name`) VALUES (1, 'Bob'), (2, 'O''Hara'), (3, '');"
        )])
    );
    assert_eq!(documents_to_sql(&vec![], &pairs(), SqlProvider::MySql), Ok(vec![]));
}

#[test]
fn documents_to_sql_for_one_row_is_the_statement_of_the_row() {
    let docs = vec![pair(1, "Bob")];
    for p in [SqlProvider::MySql, SqlProvider::Sqlite] {
        assert_eq!(
            documents_to_sql(&docs, &pairs(), p),
            Ok(vec![document_to_sql(&docs[0], &pairs(), p).unwrap()])
        );
    }
}

#[test]
fn documents_to_sql_for_sqlite_is_one_statement_for_each_row() {
    let docs = vec![pair(1, "Bob"), pair(2, "Eve")];
    assert_eq!(
        documents_to_sql(&docs, &pairs(), SqlProvider::Sqlite),
        Ok(vec![
            String::from("INSERT INTO \"npcs\" (\"id\", \"name\") VALUES (1, 'Bob');"),
            String::from("INSERT INTO \"npcs\" (\"id\", \"name\") VALUES (2, 'Eve');"),
        ])
    );
    assert_eq!(documents_to_sql(&vec![], &pairs(), SqlProvider::Sqlite), Ok(vec![]));
}

#[test]
fn documents_to_sql_names_the_first_document_at_fault() {
    let bad = Document { fields: vec![field("id", Value::Integer(2)), field("name", Value::Null)] };
    let worse = Document { fields: vec![field("id", text("x"))] };
    let docs = vec![pair(1, "Bob"), bad, worse];
    for p in [SqlProvider::MySql, SqlProvider::Sqlite] {
        assert_eq!(documents_to_sql(&docs, &pairs(), p), Err(RowMismatch { row: 1, column: 1 }));
    }
    assert_eq!(find_bad_document(&docs, &pairs()), Some(RowMismatch { row: 1, column: 1 }));
    assert_eq!(find_bad_document(&vec![pair(1, "a")], &pairs()), None);
}
