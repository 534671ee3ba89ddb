//! Translation between rows of a relational database and documents:
//! typed documents from raw rows, and SQL statements from documents.

use crate::document::{
    check_datetime, coerce, coerced, conforms, row_view, Document, Field, SqlProvider, Value,
    ValueView,
};
use crate::literal::{
    literal_text, name_mark_of, push_literal, push_quoted, push_str, quoted_name,
};
use crate::numeral::check_decimal;
use crate::schema::{ColumnDef, SqlType, TableSchema};
use crate::text::{chars_of, same_text, string_of, texts};
use vstd::prelude::*;

verus! {

/// A value that is not of its column's declared type, or a row that is
/// shorter or longer than the columns: `column` is the position of the
/// first field at fault.
#[derive(Clone, Copy, Debug, PartialEq, Eq, Structural)]
pub struct TypeMismatch {
    pub column: usize,
}

/// Whether the row has a value for the column at `i` that stands for a
/// value of the column's declared type.
pub open spec fn fits_at(row: Seq<ValueView>, cols: Seq<ColumnDef>, i: int) -> bool {
    0 <= i < row.len() && i < cols.len() && coerced(row[i], cols[i].sql_type, cols[i].nullable)
        is Some
}

/// The document for a row that fits the columns: each column's name with
/// the value of the declared type that the row's value stands for.
pub open spec fn typed_row(row: Seq<ValueView>, cols: Seq<ColumnDef>) -> Seq<
    (Seq<char>, ValueView),
> {
    Seq::new(
        cols.len(),
        |i: int| (cols[i].name@, coerced(row[i], cols[i].sql_type, cols[i].nullable)->Some_0),
    )
}

/// Whether the row has as many values as there are columns, each standing
/// for a value of its column's declared type.
pub open spec fn row_fits(row: Seq<ValueView>, cols: Seq<ColumnDef>) -> bool {
    row.len() == cols.len() && forall|i: int| 0 <= i < cols.len() ==> fits_at(row, cols, i)
}

/// Whether `i` is the first position at which the row does not fit.
pub open spec fn first_misfit(row: Seq<ValueView>, cols: Seq<ColumnDef>, i: int) -> bool {
    &&& 0 <= i
    &&& i < row.len() || i < cols.len()
    &&& !fits_at(row, cols, i)
    &&& forall|j: int| 0 <= j < i ==> fits_at(row, cols, j)
}

/// Whether the field is one of the column: its name, and a value of the
/// declared type.
pub open spec fn field_conforms(f: (Seq<char>, ValueView), c: ColumnDef) -> bool {
    f.0 == c.name@ && conforms(f.1, c.sql_type, c.nullable)
}

/// Whether the document has a field at `i` that is one of the column at `i`.
pub open spec fn conforms_at(doc: Seq<(Seq<char>, ValueView)>, cols: Seq<ColumnDef>, i: int)
    -> bool {
    0 <= i < doc.len() && i < cols.len() && field_conforms(doc[i], cols[i])
}

/// Whether the document has one field for each column, in order, each with
/// the column's name and a value of the declared type.
pub open spec fn document_conforms(doc: Seq<(Seq<char>, ValueView)>, cols: Seq<ColumnDef>)
    -> bool {
    doc.len() == cols.len() && forall|i: int| 0 <= i < cols.len() ==> conforms_at(doc, cols, i)
}

/// Whether `i` is the first position at which the document does not conform.
pub open spec fn first_fault(doc: Seq<(Seq<char>, ValueView)>, cols: Seq<ColumnDef>, i: int)
    -> bool {
    &&& 0 <= i
    &&& i < doc.len() || i < cols.len()
    &&& !conforms_at(doc, cols, i)
    &&& forall|j: int| 0 <= j < i ==> conforms_at(doc, cols, j)
}

/// Turns a raw row into the document of the table: one field for each
/// column, in the order of the columns, with the value of the column's
/// declared type that the row's value stands for. A row that does not fit
/// is refused with the position of the first field at fault.
pub fn row_to_document(raw_row: Vec<Value>, schema: &TableSchema) -> (r: Result<
    Document,
    TypeMismatch,
>)
    ensures
        match r {
            Ok(doc) => row_fits(row_view(raw_row@), schema.columns@) && doc@ == typed_row(
                row_view(raw_row@),
                schema.columns@,
            ),
            Err(e) => first_misfit(row_view(raw_row@), schema.columns@, e.column as int),
        },
{
    broadcast use vstd::std_specs::vec::axiom_spec_into_iter;

    let ghost whole = raw_row@;
    let ghost row = row_view(raw_row@);
    let ghost cols = schema.columns@;
    let mut fields: Vec<Field> = Vec::new();
    for v in it: raw_row.into_iter()
        invariant
            it.seq() == whole,
            row == row_view(whole),
            cols == schema.columns@,
            fields@.len() == it.index@,
            forall|j: int| 0 <= j < fields@.len() ==> fits_at(row, cols, j),
            forall|j: int|
                0 <= j < fields@.len() ==> j < cols.len() && (#[trigger] fields@[j]).name@
                    == cols[j].name@ && fields@[j].value@ == coerced(
                    row[j],
                    cols[j].sql_type,
                    cols[j].nullable,
                )->Some_0,
    {
        let i: usize = fields.len();
        if i >= schema.columns.len() {
            return Err(TypeMismatch { column: i });
        }
        let col: &ColumnDef = &schema.columns[i];
        assert(v@ == row[i as int]);
        match coerce(v, col.sql_type, col.nullable) {
            Some(w) => {
                fields.push(Field { name: col.name.clone(), value: w });
            },
            None => {
                return Err(TypeMismatch { column: i });
            },
        }
    }
    assert(fields@.len() == row.len());
    if fields.len() < schema.columns.len() {
        return Err(TypeMismatch { column: fields.len() });
    }
    let doc = Document { fields };
    assert(doc@.len() == cols.len()) by {
        if doc.fields@.len() > 0 {
            assert(fits_at(row, cols, doc.fields@.len() - 1));
        }
    }
    assert forall|i: int| 0 <= i < cols.len() implies doc@[i] == typed_row(row, cols)[i] by {
        assert(doc.fields@[i].name@ == cols[i].name@);
    }
    assert(doc@ =~= typed_row(row, cols));
    Ok(doc)
}

/// The texts of `parts` with a comma and a space between each two.
pub open spec fn joined(parts: Seq<Seq<char>>) -> Seq<char>
    decreases parts.len(),
{
    if parts.len() == 0 {
        Seq::<char>::empty()
    } else if parts.len() == 1 {
        parts[0]
    } else {
        joined(parts.drop_last()) + seq![',', ' '] + parts.last()
    }
}

/// The names of the fields of a document, as the dialect writes them.
pub open spec fn field_names(doc: Seq<(Seq<char>, ValueView)>, p: SqlProvider) -> Seq<Seq<char>> {
    Seq::new(doc.len(), |i: int| quoted_name(doc[i].0, p))
}

/// The values of the fields of a document, as the dialect writes them.
pub open spec fn field_literals(doc: Seq<(Seq<char>, ValueView)>, p: SqlProvider) -> Seq<
    Seq<char>,
> {
    Seq::new(doc.len(), |i: int| literal_text(doc[i].1, p))
}

/// The statement that inserts the document `doc` into the table `table`:
/// the table's name, the names of the fields, and their values, in the
/// dialect `p`.
pub open spec fn insert_text(table: Seq<char>, doc: Seq<(Seq<char>, ValueView)>, p: SqlProvider)
    -> Seq<char> {
    "INSERT INTO "@ + quoted_name(table, p) + " ("@ + joined(field_names(doc, p)) + ") VALUES ("@
        + joined(field_literals(doc, p)) + ");"@
}

/// Whether `v` is a value of the column's declared type as it stands.
pub fn check_value(v: &Value, sql_type: SqlType, nullable: bool) -> (r: bool)
    ensures
        r == conforms(v@, sql_type, nullable),
{
    match v {
        Value::Null => nullable,
        Value::Integer(_) => match sql_type {
            SqlType::Integer => true,
            _ => false,
        },
        Value::Float(t) => match sql_type {
            SqlType::Float => {
                let chars: Vec<char> = chars_of(t.as_str());
                check_decimal(&chars)
            },
            _ => false,
        },
        Value::Text(_) => match sql_type {
            SqlType::Text => true,
            _ => false,
        },
        Value::Blob(_) => match sql_type {
            SqlType::Blob => true,
            _ => false,
        },
        Value::Boolean(_) => match sql_type {
            SqlType::Boolean => true,
            _ => false,
        },
        Value::DateTime(t) => match sql_type {
            SqlType::DateTime => {
                let chars: Vec<char> = chars_of(t.as_str());
                check_datetime(&chars)
            },
            _ => false,
        },
    }
}

/// The position of the first field of `doc` that is not one of its column,
/// if the document does not conform to the columns.
pub fn find_fault(doc: &Document, schema: &TableSchema) -> (r: Option<usize>)
    ensures
        match r {
            None => document_conforms(doc@, schema.columns@),
            Some(i) => first_fault(doc@, schema.columns@, i as int),
        },
{
    let n: usize = doc.fields.len();
    let m: usize = schema.columns.len();
    let mut i: usize = 0;
    while i < n || i < m
        invariant
            n == doc.fields@.len(),
            m == schema.columns@.len(),
            forall|j: int| 0 <= j < i ==> conforms_at(doc@, schema.columns@, j),
        decreases (if n > m { n } else { m }) - i,
    {
        if i >= n || i >= m {
            return Some(i);
        }
        let f: &Field = &doc.fields[i];
        let c: &ColumnDef = &schema.columns[i];
        assert(doc@[i as int] == (f.name@, f.value@));
        if !same_text(f.name.as_str(), c.name.as_str()) || !check_value(
            &f.value,
            c.sql_type,
            c.nullable,
        ) {
            return Some(i);
        }
        i += 1;
    }
    proof {
        if i > 0 {
            assert(conforms_at(doc@, schema.columns@, i - 1));
        }
    }
    None
}

/// Appends the values of the fields of `doc`, as the dialect `p` writes
/// them, with a comma and a space between each two.
pub fn push_values(out: &mut Vec<char>, doc: &Document, p: SqlProvider)
    ensures
        final(out)@ == old(out)@ + joined(field_literals(doc@, p)),
{
    let ghost lits = field_literals(doc@, p);
    let ghost base = out@;
    let mut k: usize = 0;
    assert(lits.take(0) =~= Seq::<Seq<char>>::empty());
    assert(out@ =~= base + joined(lits.take(0)));
    while k < doc.fields.len()
        invariant
            k <= doc.fields@.len(),
            lits == field_literals(doc@, p),
            out@ == base + joined(lits.take(k as int)),
        decreases doc.fields.len() - k,
    {
        let ghost before = out@;
        if k > 0 {
            out.push(',');
            out.push(' ');
        }
        push_literal(out, &doc.fields[k].value, p);
        proof {
            assert(lits.take(k + 1).drop_last() =~= lits.take(k as int));
            assert(lits.take(k + 1).last() == literal_text(doc.fields@[k as int].value@, p));
            if k > 0 {
                assert(out@ =~= before + seq![',', ' '] + lits[k as int]);
            }
        }
        k += 1;
    }
    assert(lits.take(doc.fields@.len() as int) =~= lits);
}

/// Writes the statement that inserts the document into the table of
/// `schema`, in the dialect `provider`. A document that does not conform to
/// the schema is refused with the position of the first field at fault.
pub fn document_to_sql(doc: &Document, schema: &TableSchema, provider: SqlProvider) -> (r: Result<
    String,
    TypeMismatch,
>)
    ensures
        match r {
            Ok(sql) => document_conforms(doc@, schema.columns@) && sql@ == insert_text(
                schema.name@,
                doc@,
                provider,
            ),
            Err(e) => first_fault(doc@, schema.columns@, e.column as int),
        },
{
    match find_fault(doc, schema) {
        Some(i) => {
            return Err(TypeMismatch { column: i });
        },
        None => {},
    }
    let q: char = name_mark_of(provider);
    let mut out: Vec<char> = Vec::new();
    push_str(&mut out, "INSERT INTO ");
    push_quoted(&mut out, schema.name.as_str(), q, false);
    push_str(&mut out, " (");
    let ghost names = field_names(doc@, provider);
    let ghost base = out@;
    let mut i: usize = 0;
    assert(names.take(0) =~= Seq::<Seq<char>>::empty());
    assert(out@ =~= base + joined(names.take(0)));
    while i < doc.fields.len()
        invariant
            i <= doc.fields@.len(),
            q == crate::literal::name_mark(provider),
            names == field_names(doc@, provider),
            out@ == base + joined(names.take(i as int)),
        decreases doc.fields.len() - i,
    {
        let ghost before = out@;
        if i > 0 {
            out.push(',');
            out.push(' ');
        }
        push_quoted(&mut out, doc.fields[i].name.as_str(), q, false);
        proof {
            assert(names.take(i + 1).drop_last() =~= names.take(i as int));
            assert(names.take(i + 1).last() == quoted_name(doc.fields@[i as int].name@, provider));
            if i > 0 {
                assert(out@ =~= before + seq![',', ' '] + names[i as int]);
            }
        }
        i += 1;
    }
    assert(names.take(doc.fields@.len() as int) =~= names);
    push_str(&mut out, ") VALUES (");
    push_values(&mut out, doc, provider);
    push_str(&mut out, ");");
    assert(out@ =~= insert_text(schema.name@, doc@, provider));
    Ok(string_of(&out))
}

/// The name of a column type in the dialect `p`.
pub open spec fn column_type_text(t: SqlType, p: SqlProvider) -> Seq<char> {
    match p {
        SqlProvider::MySql => match t {
            SqlType::Integer => "BIGINT"@,
            SqlType::Float => "DOUBLE"@,
            SqlType::Text => "TEXT"@,
            SqlType::Blob => "BLOB"@,
            SqlType::Boolean => "TINYINT(1)"@,
            SqlType::DateTime => "DATETIME"@,
        },
        SqlProvider::Sqlite => match t {
            SqlType::Integer => "INTEGER"@,
            SqlType::Float => "REAL"@,
            SqlType::Text => "TEXT"@,
            SqlType::Blob => "BLOB"@,
            SqlType::Boolean => "INTEGER"@,
            SqlType::DateTime => "TEXT"@,
        },
    }
}

/// The columns that make up the primary key, in order.
pub open spec fn key_columns(cols: Seq<ColumnDef>) -> Seq<ColumnDef> {
    cols.filter(|c: ColumnDef| c.is_primary_key)
}

/// Whether the primary key is one column of whole numbers: such a key is
/// declared with its column and counts up by itself.
pub open spec fn counting_key(cols: Seq<ColumnDef>) -> bool {
    key_columns(cols).len() == 1 && key_columns(cols)[0].sql_type == SqlType::Integer
}

/// What declares a column as a key that counts up by itself.
pub open spec fn counting_key_text(p: SqlProvider) -> Seq<char> {
    match p {
        SqlProvider::MySql => " PRIMARY KEY AUTO_INCREMENT"@,
        SqlProvider::Sqlite => " PRIMARY KEY AUTOINCREMENT"@,
    }
}

/// The declaration of one column: its name, its type, `NOT NULL` unless
/// it is nullable, and the key where it is declared with the column.
pub open spec fn column_text(c: ColumnDef, p: SqlProvider, counting: bool) -> Seq<char> {
    quoted_name(c.name@, p) + " "@ + column_type_text(c.sql_type, p) + (if c.nullable {
        Seq::<char>::empty()
    } else {
        " NOT NULL"@
    }) + (if counting && c.is_primary_key {
        counting_key_text(p)
    } else {
        Seq::<char>::empty()
    })
}

/// The declarations of the columns, in order.
pub open spec fn column_texts(cols: Seq<ColumnDef>, p: SqlProvider) -> Seq<Seq<char>> {
    Seq::new(cols.len(), |i: int| column_text(cols[i], p, counting_key(cols)))
}

/// The names of `cols`, as the dialect writes them.
pub open spec fn column_names(cols: Seq<ColumnDef>, p: SqlProvider) -> Seq<Seq<char>> {
    Seq::new(cols.len(), |i: int| quoted_name(cols[i].name@, p))
}

/// The declaration of a primary key that is not declared with its column:
/// nothing where there is no key.
pub open spec fn key_clause(cols: Seq<ColumnDef>, p: SqlProvider) -> Seq<char> {
    if key_columns(cols).len() == 0 || counting_key(cols) {
        Seq::<char>::empty()
    } else {
        ", PRIMARY KEY ("@ + joined(column_names(key_columns(cols), p)) + ")"@
    }
}

/// The statement that creates the table `table` with the columns `cols`
/// in the dialect `p`.
pub open spec fn create_table_text(table: Seq<char>, cols: Seq<ColumnDef>, p: SqlProvider) -> Seq<
    char,
> {
    "CREATE TABLE "@ + quoted_name(table, p) + " ("@ + joined(column_texts(cols, p)) + key_clause(
        cols,
        p,
    ) + ");"@
}

/// The columns that a sequence of references points to.
pub open spec fn column_targets(r: Seq<&ColumnDef>) -> Seq<ColumnDef> {
    Seq::new(r.len(), |i: int| *r[i])
}

/// The columns of the primary key, in order.
pub fn key_columns_of<'a>(schema: &'a TableSchema) -> (r: Vec<&'a ColumnDef>)
    ensures
        column_targets(r@) == key_columns(schema.columns@),
{
    let ghost pred = |c: ColumnDef| c.is_primary_key;
    let mut out: Vec<&'a ColumnDef> = Vec::new();
    let mut i: usize = 0;
    proof {
        assert(schema.columns@.take(0) =~= Seq::<ColumnDef>::empty());
        assert(column_targets(out@) =~= Seq::<ColumnDef>::empty());
        reveal(Seq::filter);
    }
    while i < schema.columns.len()
        invariant
            i <= schema.columns@.len(),
            pred == (|c: ColumnDef| c.is_primary_key),
            column_targets(out@) == schema.columns@.take(i as int).filter(pred),
        decreases schema.columns.len() - i,
    {
        let c: &'a ColumnDef = &schema.columns[i];
        proof {
            schema.columns@.take(i as int).lemma_filter_push(*c, pred);
            assert(schema.columns@.take(i as int).push(*c) =~= schema.columns@.take(i + 1));
        }
        let ghost before = column_targets(out@);
        if c.is_primary_key {
            out.push(c);
            assert(column_targets(out@) =~= before.push(*c));
        }
        i += 1;
    }
    assert(schema.columns@.take(schema.columns@.len() as int) =~= schema.columns@);
    out
}

/// Appends the name of the column type in the dialect `p` to `out`.
fn push_column_type(out: &mut Vec<char>, t: SqlType, p: SqlProvider)
    ensures
        final(out)@ == old(out)@ + column_type_text(t, p),
{
    let name: &str = match p {
        SqlProvider::MySql => match t {
            SqlType::Integer => "BIGINT",
            SqlType::Float => "DOUBLE",
            SqlType::Text => "TEXT",
            SqlType::Blob => "BLOB",
            SqlType::Boolean => "TINYINT(1)",
            SqlType::DateTime => "DATETIME",
        },
        SqlProvider::Sqlite => match t {
            SqlType::Integer => "INTEGER",
            SqlType::Float => "REAL",
            SqlType::Text => "TEXT",
            SqlType::Blob => "BLOB",
            SqlType::Boolean => "INTEGER",
            SqlType::DateTime => "TEXT",
        },
    };
    push_str(out, name);
}

/// Appends the declaration of the column `c` to `out`.
fn push_column(out: &mut Vec<char>, c: &ColumnDef, p: SqlProvider, counting: bool)
    ensures
        final(out)@ == old(out)@ + column_text(*c, p, counting),
{
    let q: char = name_mark_of(p);
    push_quoted(out, c.name.as_str(), q, false);
    push_str(out, " ");
    push_column_type(out, c.sql_type, p);
    if !c.nullable {
        push_str(out, " NOT NULL");
    }
    if counting && c.is_primary_key {
        match p {
            SqlProvider::MySql => push_str(out, " PRIMARY KEY AUTO_INCREMENT"),
            SqlProvider::Sqlite => push_str(out, " PRIMARY KEY AUTOINCREMENT"),
        }
    }
    assert(final(out)@ =~= old(out)@ + column_text(*c, p, counting));
}

/// Writes the statement that creates the table of `schema` in the dialect
/// `provider`: each column with its type, and the primary key. A key of
/// one column of whole numbers is declared with the column and counts up
/// by itself; any other key is declared after the columns.
pub fn create_table_sql(schema: &TableSchema, provider: SqlProvider) -> (r: String)
    ensures
        r@ == create_table_text(schema.name@, schema.columns@, provider),
{
    let q: char = name_mark_of(provider);
    let keys: Vec<&ColumnDef> = key_columns_of(schema);
    let counting: bool = keys.len() == 1 && match keys[0].sql_type {
        SqlType::Integer => true,
        _ => false,
    };
    assert(keys@.len() == 1 ==> *keys@[0] == column_targets(keys@)[0]);
    assert(counting == counting_key(schema.columns@));
    let mut out: Vec<char> = Vec::new();
    push_str(&mut out, "CREATE TABLE ");
    push_quoted(&mut out, schema.name.as_str(), q, false);
    push_str(&mut out, " (");
    let ghost decls = column_texts(schema.columns@, provider);
    let ghost base = out@;
    let mut i: usize = 0;
    assert(decls.take(0) =~= Seq::<Seq<char>>::empty());
    assert(out@ =~= base + joined(decls.take(0)));
    while i < schema.columns.len()
        invariant
            i <= schema.columns@.len(),
            counting == counting_key(schema.columns@),
            decls == column_texts(schema.columns@, provider),
            out@ == base + joined(decls.take(i as int)),
        decreases schema.columns.len() - i,
    {
        let ghost before = out@;
        if i > 0 {
            out.push(',');
            out.push(' ');
        }
        push_column(&mut out, &schema.columns[i], provider, counting);
        proof {
            assert(decls.take(i + 1).drop_last() =~= decls.take(i as int));
            assert(decls.take(i + 1).last() == column_text(
                schema.columns@[i as int],
                provider,
                counting,
            ));
            if i > 0 {
                assert(out@ =~= before + seq![',', ' '] + decls[i as int]);
            }
        }
        i += 1;
    }
    assert(decls.take(schema.columns@.len() as int) =~= decls);
    let ghost body = out@;
    if keys.len() > 0 && !counting {
        push_str(&mut out, ", PRIMARY KEY (");
        let ghost names = column_names(key_columns(schema.columns@), provider);
        let ghost base2 = out@;
        let mut k: usize = 0;
        assert(names.take(0) =~= Seq::<Seq<char>>::empty());
        assert(out@ =~= base2 + joined(names.take(0)));
        while k < keys.len()
            invariant
                k <= keys@.len(),
                q == crate::literal::name_mark(provider),
                column_targets(keys@) == key_columns(schema.columns@),
                names == column_names(key_columns(schema.columns@), provider),
                out@ == base2 + joined(names.take(k as int)),
            decreases keys.len() - k,
        {
            let ghost before = out@;
            if k > 0 {
                out.push(',');
                out.push(' ');
            }
            push_quoted(&mut out, keys[k].name.as_str(), q, false);
            proof {
                assert(*keys@[k as int] == column_targets(keys@)[k as int]);
                assert(names.take(k + 1).drop_last() =~= names.take(k as int));
                assert(names.take(k + 1).last() == quoted_name(keys@[k as int].name@, provider));
                if k > 0 {
                    assert(out@ =~= before + seq![',', ' '] + names[k as int]);
                }
            }
            k += 1;
        }
        assert(names.take(keys@.len() as int) =~= names);
        push_str(&mut out, ")");
        assert(out@ =~= body + key_clause(schema.columns@, provider));
    } else {
        assert(out@ =~= body + key_clause(schema.columns@, provider));
    }
    push_str(&mut out, ");");
    assert(out@ =~= create_table_text(schema.name@, schema.columns@, provider));
    string_of(&out)
}

/// A document of a table that does not conform to the columns: `row` is
/// the position of the document, `column` that of its first field at fault.
#[derive(Clone, Copy, Debug, PartialEq, Eq, Structural)]
pub struct RowMismatch {
    pub row: usize,
    pub column: usize,
}

/// The values of a document in brackets, as the dialect writes them.
pub open spec fn row_text(doc: Seq<(Seq<char>, ValueView)>, p: SqlProvider) -> Seq<char> {
    "("@ + joined(field_literals(doc, p)) + ")"@
}

/// The values of each document in brackets, in order.
pub open spec fn row_texts(docs: Seq<Seq<(Seq<char>, ValueView)>>, p: SqlProvider) -> Seq<
    Seq<char>,
> {
    Seq::new(docs.len(), |k: int| row_text(docs[k], p))
}

/// The one statement that inserts all of `docs` into the table.
pub open spec fn batch_text(
    table: Seq<char>,
    cols: Seq<ColumnDef>,
    docs: Seq<Seq<(Seq<char>, ValueView)>>,
    p: SqlProvider,
) -> Seq<char> {
    "INSERT INTO "@ + quoted_name(table, p) + " ("@ + joined(column_names(cols, p)) + ") VALUES "@
        + joined(row_texts(docs, p)) + ";"@
}

/// Whether the dialect takes the rows of a table in one statement.
pub open spec fn batches_rows(p: SqlProvider) -> bool {
    p == SqlProvider::MySql
}

/// The statements that insert the documents of a table: in MySQL one
/// statement for all rows, and none without rows; in SQLite one statement
/// for each row.
pub open spec fn insert_statements(
    table: Seq<char>,
    cols: Seq<ColumnDef>,
    docs: Seq<Seq<(Seq<char>, ValueView)>>,
    p: SqlProvider,
) -> Seq<Seq<char>> {
    if batches_rows(p) {
        if docs.len() == 0 {
            Seq::<Seq<char>>::empty()
        } else {
            seq![batch_text(table, cols, docs, p)]
        }
    } else {
        Seq::new(docs.len(), |k: int| insert_text(table, docs[k], p))
    }
}

/// Whether every document conforms to the columns.
pub open spec fn all_documents_conform(
    docs: Seq<Seq<(Seq<char>, ValueView)>>,
    cols: Seq<ColumnDef>,
) -> bool {
    forall|k: int| 0 <= k < docs.len() ==> document_conforms(#[trigger] docs[k], cols)
}

/// Whether `row` is the position of the first document that does not
/// conform, and `column` that of its first field at fault.
pub open spec fn first_bad_document(
    docs: Seq<Seq<(Seq<char>, ValueView)>>,
    cols: Seq<ColumnDef>,
    row: int,
    column: int,
) -> bool {
    &&& 0 <= row < docs.len()
    &&& first_fault(docs[row], cols, column)
    &&& forall|j: int| 0 <= j < row ==> document_conforms(#[trigger] docs[j], cols)
}

/// The first document that does not conform to the schema, if there is one.
pub fn find_bad_document(docs: &Vec<Document>, schema: &TableSchema) -> (r: Option<RowMismatch>)
    ensures
        match r {
            None => all_documents_conform(crate::document::documents_view(docs@), schema.columns@),
            Some(e) => first_bad_document(
                crate::document::documents_view(docs@),
                schema.columns@,
                e.row as int,
                e.column as int,
            ),
        },
{
    let ghost view = crate::document::documents_view(docs@);
    let mut k: usize = 0;
    while k < docs.len()
        invariant
            k <= docs@.len(),
            view == crate::document::documents_view(docs@),
            forall|j: int| 0 <= j < k ==> document_conforms(#[trigger] view[j], schema.columns@),
        decreases docs.len() - k,
    {
        assert(view[k as int] == docs@[k as int]@);
        match find_fault(&docs[k], schema) {
            Some(column) => {
                return Some(RowMismatch { row: k, column });
            },
            None => {},
        }
        k += 1;
    }
    None
}

/// Writes the statements that insert the documents into the table of
/// `schema`, in the dialect `provider`: for MySQL one statement with all
/// rows, for SQLite one statement for each row. If a document does not
/// conform to the schema nothing is written, and the first such document
/// is named with its first field at fault.
pub fn documents_to_sql(docs: &Vec<Document>, schema: &TableSchema, provider: SqlProvider) -> (r:
    Result<Vec<String>, RowMismatch>)
    ensures
        match r {
            Ok(statements) => all_documents_conform(
                crate::document::documents_view(docs@),
                schema.columns@,
            ) && texts(statements@) == insert_statements(
                schema.name@,
                schema.columns@,
                crate::document::documents_view(docs@),
                provider,
            ),
            Err(e) => first_bad_document(
                crate::document::documents_view(docs@),
                schema.columns@,
                e.row as int,
                e.column as int,
            ),
        },
{
    match find_bad_document(docs, schema) {
        Some(e) => {
            return Err(e);
        },
        None => {},
    }
    let ghost view = crate::document::documents_view(docs@);
    let mut statements: Vec<String> = Vec::new();
    match provider {
        SqlProvider::Sqlite => {
            let mut k: usize = 0;
            assert(texts(statements@) =~= Seq::new(
                0,
                |j: int| insert_text(schema.name@, view[j], provider),
            ));
            while k < docs.len()
                invariant
                    k <= docs@.len(),
                    view == crate::document::documents_view(docs@),
                    all_documents_conform(view, schema.columns@),
                    texts(statements@) == Seq::new(
                        k as nat,
                        |j: int| insert_text(schema.name@, view[j], provider),
                    ),
                decreases docs.len() - k,
            {
                let ghost before = texts(statements@);
                assert(view[k as int] == docs@[k as int]@);
                match document_to_sql(&docs[k], schema, provider) {
                    Ok(sql) => {
                        statements.push(sql);
                        assert(texts(statements@) =~= before.push(
                            insert_text(schema.name@, view[k as int], provider),
                        ));
                        assert(texts(statements@) =~= Seq::new(
                            (k + 1) as nat,
                            |j: int| insert_text(schema.name@, view[j], provider),
                        ));
                    },
                    Err(e) => {
                        proof {
                            assert(document_conforms(view[k as int], schema.columns@));
                            assert(conforms_at(view[k as int], schema.columns@, e.column as int));
                        }
                    },
                }
                k += 1;
            }
        },
        SqlProvider::MySql => {
            if docs.len() > 0 {
                let q: char = name_mark_of(provider);
                let mut out: Vec<char> = Vec::new();
                push_str(&mut out, "INSERT INTO ");
                push_quoted(&mut out, schema.name.as_str(), q, false);
                push_str(&mut out, " (");
                push_column_names(&mut out, schema, provider);
                push_str(&mut out, ") VALUES ");
                let ghost rows = row_texts(view, provider);
                let ghost base = out@;
                let mut k: usize = 0;
                assert(rows.take(0) =~= Seq::<Seq<char>>::empty());
                assert(out@ =~= base + joined(rows.take(0)));
                while k < docs.len()
                    invariant
                        k <= docs@.len(),
                        view == crate::document::documents_view(docs@),
                        rows == row_texts(view, provider),
                        out@ == base + joined(rows.take(k as int)),
                    decreases docs.len() - k,
                {
                    let ghost before = out@;
                    if k > 0 {
                        out.push(',');
                        out.push(' ');
                    }
                    let ghost mid = out@;
                    push_str(&mut out, "(");
                    push_values(&mut out, &docs[k], provider);
                    push_str(&mut out, ")");
                    proof {
                        assert(view[k as int] == docs@[k as int]@);
                        assert(out@ =~= mid + row_text(view[k as int], provider));
                        assert(rows.take(k + 1).drop_last() =~= rows.take(k as int));
                        assert(rows.take(k + 1).last() == row_text(view[k as int], provider));
                        if k > 0 {
                            assert(out@ =~= before + seq![',', ' '] + rows[k as int]);
                        }
                    }
                    k += 1;
                }
                assert(rows.take(docs@.len() as int) =~= rows);
                push_str(&mut out, ";");
                assert(out@ =~= batch_text(schema.name@, schema.columns@, view, provider));
                statements.push(string_of(&out));
                assert(texts(statements@) =~= seq![
                    batch_text(schema.name@, schema.columns@, view, provider),
                ]);
            } else {
                assert(texts(statements@) =~= Seq::<Seq<char>>::empty());
            }
        },
    }
    Ok(statements)
}

/// Appends the names of the columns of `schema`, as the dialect `p`
/// writes them, with a comma and a space between each two.
pub fn push_column_names(out: &mut Vec<char>, schema: &TableSchema, p: SqlProvider)
    ensures
        final(out)@ == old(out)@ + joined(column_names(schema.columns@, p)),
{
    let q: char = name_mark_of(p);
    let ghost names = column_names(schema.columns@, p);
    let ghost base = out@;
    let mut i: usize = 0;
    assert(names.take(0) =~= Seq::<Seq<char>>::empty());
    assert(out@ =~= base + joined(names.take(0)));
    while i < schema.columns.len()
        invariant
            i <= schema.columns@.len(),
            q == crate::literal::name_mark(p),
            names == column_names(schema.columns@, p),
            out@ == base + joined(names.take(i as int)),
        decreases schema.columns.len() - i,
    {
        let ghost before = out@;
        if i > 0 {
            out.push(',');
            out.push(' ');
        }
        push_quoted(out, schema.columns[i].name.as_str(), q, false);
        proof {
            assert(names.take(i + 1).drop_last() =~= names.take(i as int));
            assert(names.take(i + 1).last() == quoted_name(schema.columns@[i as int].name@, p));
            if i > 0 {
                assert(out@ =~= before + seq![',', ' '] + names[i as int]);
            }
        }
        i += 1;
    }
    assert(names.take(schema.columns@.len() as int) =~= names);
}

/// A statement for all rows that holds one row is the statement for that
/// row.
pub proof fn lemma_batch_of_one(
    table: Seq<char>,
    cols: Seq<ColumnDef>,
    doc: Seq<(Seq<char>, ValueView)>,
    p: SqlProvider,
)
    requires
        document_conforms(doc, cols),
    ensures
        batch_text(table, cols, seq![doc], p) == insert_text(table, doc, p),
{
    reveal_strlit(") VALUES (");
    reveal_strlit(") VALUES ");
    reveal_strlit("(");
    reveal_strlit(")");
    reveal_strlit(";");
    reveal_strlit(");");
    assert(column_names(cols, p) =~= field_names(doc, p)) by {
        assert forall|i: int| 0 <= i < cols.len() implies column_names(cols, p)[i] == field_names(
            doc,
            p,
        )[i] by {
            assert(conforms_at(doc, cols, i));
        }
    }
    assert(row_texts(seq![doc], p) =~= seq![row_text(doc, p)]);
    assert(joined(seq![row_text(doc, p)]) == row_text(doc, p));
    assert(") VALUES ("@ =~= ") VALUES "@ + "("@);
    assert(");"@ =~= ")"@ + ";"@);
    assert(batch_text(table, cols, seq![doc], p) =~= insert_text(table, doc, p));
}

} // verus!
