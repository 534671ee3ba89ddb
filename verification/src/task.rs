//! The tasks of a run: import the schemas, import the rows of the
//! selected tables, or export the selected tables as SQL.

use crate::codec::{
    all_documents_conform, create_table_sql, create_table_text, documents_to_sql,
    first_bad_document, first_misfit, fits_at, insert_statements, row_fits, row_to_document,
    typed_row,
};
use crate::document::{documents_view, row_view, Document, SqlProvider, Value, ValueView};
use crate::numeral::{int_text, push_digits};
use crate::literal::push_str;
use crate::schema::{ColumnDef, SchemaRegistry, TableSchema};
use crate::store::{table_key, DocumentStore};
use crate::text::{string_of, texts};
use crate::yml_parser::DbCred;
use vstd::prelude::*;

verus! {

/// Why a table was not brought over.
#[derive(Clone, Copy, Debug, PartialEq, Eq, Structural)]
pub enum FailureCause {
    /// The source does not know the table.
    TableNotFound,
    /// A value of row `row` is not of the type of column `column`.
    TypeMismatch { row: usize, column: usize },
}

/// What became of one table: its name, the failure if there was one, and
/// the statements that an export wrote for it.
#[derive(Debug, PartialEq, Eq)]
pub struct TableReport {
    pub table: String,
    pub failure: Option<FailureCause>,
    pub statements: Vec<String>,
}

/// What became of each table of a run, in the order of the tables.
#[derive(Debug, PartialEq, Eq)]
pub struct RunReport {
    pub tables: Vec<TableReport>,
}

/// The registry of schemas and the store of documents.
#[derive(Debug, PartialEq, Eq)]
pub struct InternalDb {
    pub registry: SchemaRegistry,
    pub store: DocumentStore,
}

/// What was read from the relational database for a task: its schemas for
/// an import of schemas; for an import of rows the rows of each table of
/// the task, in the order of the tables, `None` for a table that the
/// database does not know.
#[derive(Debug, PartialEq, Eq)]
pub struct SourceData {
    pub schemas: Vec<TableSchema>,
    pub tables: Vec<Option<Vec<Vec<Value>>>>,
}

/// The rows of a table, as plain data.
pub open spec fn rows_view(rows: Seq<Vec<Value>>) -> Seq<Seq<ValueView>> {
    Seq::new(rows.len(), |k: int| row_view(rows[k]@))
}

/// What the database answered for a table, as plain data.
pub open spec fn answer_view(answer: Option<Vec<Vec<Value>>>) -> Option<Seq<Seq<ValueView>>> {
    match answer {
        Some(rows) => Some(rows_view(rows@)),
        None => None,
    }
}

/// What the database answered for the table at `i`: nothing where the
/// answers end before.
pub open spec fn answer_at(answers: Seq<Option<Vec<Vec<Value>>>>, i: int) -> Option<
    Seq<Seq<ValueView>>,
> {
    if 0 <= i < answers.len() {
        answer_view(answers[i])
    } else {
        None
    }
}

/// Whether every row fits the columns.
pub open spec fn all_rows_fit(rows: Seq<Seq<ValueView>>, cols: Seq<ColumnDef>) -> bool {
    forall|k: int| 0 <= k < rows.len() ==> row_fits(#[trigger] rows[k], cols)
}

/// The documents for rows that fit the columns.
pub open spec fn typed_rows(rows: Seq<Seq<ValueView>>, cols: Seq<ColumnDef>) -> Seq<
    Seq<(Seq<char>, ValueView)>,
> {
    Seq::new(rows.len(), |k: int| typed_row(rows[k], cols))
}

/// Whether `failure` is the verdict on the rows that were read for a
/// table: none if the rows were read and all fit; else that the table was
/// not found, or the first row that does not fit with its first field at
/// fault.
pub open spec fn import_judged(
    cols: Seq<ColumnDef>,
    answer: Option<Seq<Seq<ValueView>>>,
    failure: Option<FailureCause>,
) -> bool {
    match failure {
        None => answer matches Some(rows) && all_rows_fit(rows, cols),
        Some(FailureCause::TableNotFound) => answer is None,
        Some(FailureCause::TypeMismatch { row, column }) => answer matches Some(rows) && row
            < rows.len() && first_misfit(rows[row as int], cols, column as int) && forall|j: int|
            0 <= j < row ==> row_fits(#[trigger] rows[j], cols),
    }
}

/// The store after the import of one table: the documents of the rows in
/// the place of the table's documents if the rows were read and all fit,
/// else the store as it was.
pub open spec fn imported(
    m: Map<Seq<char>, Seq<Seq<(Seq<char>, ValueView)>>>,
    table: Seq<char>,
    cols: Seq<ColumnDef>,
    answer: Option<Seq<Seq<ValueView>>>,
) -> Map<Seq<char>, Seq<Seq<(Seq<char>, ValueView)>>> {
    match answer {
        Some(rows) => if all_rows_fit(rows, cols) {
            m.insert(table_key(table), typed_rows(rows, cols))
        } else {
            m
        },
        None => m,
    }
}

/// Brings the rows that were read for one table into the store: if the
/// rows were read and every row fits the columns, their documents take the
/// place of the table's documents. Otherwise the store stays as it was and
/// the failure is returned.
pub fn import_table(schema: &TableSchema, answer: Option<Vec<Vec<Value>>>, store: &mut DocumentStore)
    -> (r: Option<FailureCause>)
    ensures
        import_judged(schema.columns@, answer_view(answer), r),
        final(store)@ == imported(old(store)@, schema.name@, schema.columns@, answer_view(answer)),
{
    broadcast use vstd::std_specs::vec::axiom_spec_into_iter;

    let rows: Vec<Vec<Value>> = match answer {
        Some(rows) => rows,
        None => {
            return Some(FailureCause::TableNotFound);
        },
    };
    let ghost whole = rows@;
    let ghost view = rows_view(rows@);
    let ghost cols = schema.columns@;
    let mut documents: Vec<Document> = Vec::new();
    for row in it: rows.into_iter()
        invariant
            it.seq() == whole,
            view == rows_view(whole),
            answer_view(answer) == Some(view),
            cols == schema.columns@,
            *store == *old(store),
            documents@.len() == it.index@,
            forall|j: int| 0 <= j < documents@.len() ==> row_fits(#[trigger] view[j], cols),
            forall|j: int|
                0 <= j < documents@.len() ==> (#[trigger] documents@[j])@ == typed_row(
                    view[j],
                    cols,
                ),
    {
        let k: usize = documents.len();
        assert(row_view(row@) == view[k as int]);
        match row_to_document(row, schema) {
            Ok(doc) => {
                documents.push(doc);
            },
            Err(e) => {
                proof {
                    assert(!fits_at(view[k as int], cols, e.column as int));
                    assert(!row_fits(view[k as int], cols));
                    assert(!all_rows_fit(view, cols));
                }
                return Some(FailureCause::TypeMismatch { row: k, column: e.column });
            },
        }
    }
    assert(documents_view(documents@) =~= typed_rows(view, cols));
    store.replace_table(schema.name.as_str(), documents);
    None
}

/// The documents of a table in the store: none where the store holds none.
pub open spec fn documents_of(
    m: Map<Seq<char>, Seq<Seq<(Seq<char>, ValueView)>>>,
    table: Seq<char>,
) -> Seq<Seq<(Seq<char>, ValueView)>> {
    if m.dom().contains(table_key(table)) {
        m[table_key(table)]
    } else {
        Seq::<Seq<(Seq<char>, ValueView)>>::empty()
    }
}

/// The statements that export a table: the statement that creates it, if
/// asked for, and then the statements that insert its documents.
pub open spec fn export_statements(
    table: Seq<char>,
    cols: Seq<ColumnDef>,
    docs: Seq<Seq<(Seq<char>, ValueView)>>,
    p: SqlProvider,
    with_schema: bool,
) -> Seq<Seq<char>> {
    (if with_schema {
        seq![create_table_text(table, cols, p)]
    } else {
        Seq::<Seq<char>>::empty()
    }) + insert_statements(table, cols, docs, p)
}

/// Whether `failure` and `statements` are the result of the export of a
/// table with the documents `docs`: the statements of the export if every
/// document conforms to the columns; else no statement, and the first
/// document that does not conform with its first field at fault.
pub open spec fn export_judged(
    table: Seq<char>,
    cols: Seq<ColumnDef>,
    docs: Seq<Seq<(Seq<char>, ValueView)>>,
    p: SqlProvider,
    with_schema: bool,
    failure: Option<FailureCause>,
    statements: Seq<Seq<char>>,
) -> bool {
    match failure {
        None => all_documents_conform(docs, cols) && statements == export_statements(
            table,
            cols,
            docs,
            p,
            with_schema,
        ),
        Some(FailureCause::TableNotFound) => false,
        Some(FailureCause::TypeMismatch { row, column }) => statements.len() == 0
            && first_bad_document(docs, cols, row as int, column as int),
    }
}

/// Writes the statements that export one table from the store, in the
/// dialect `provider`: the statement that creates the table first, if
/// `with_schema` asks for it, then the statements that insert its
/// documents. A document that does not conform to the schema fails the
/// table, which then has no statements.
pub fn export_table(
    schema: &TableSchema,
    store: &DocumentStore,
    provider: SqlProvider,
    with_schema: bool,
) -> (r: TableReport)
    ensures
        r.table@ == schema.name@,
        export_judged(
            schema.name@,
            schema.columns@,
            documents_of(store@, schema.name@),
            provider,
            with_schema,
            r.failure,
            texts(r.statements@),
        ),
{
    let ghost docs = documents_of(store@, schema.name@);
    let ghost cols = schema.columns@;
    let mut statements: Vec<String> = Vec::new();
    if with_schema {
        statements.push(create_table_sql(schema, provider));
    }
    let ghost head = texts(statements@);
    proof {
        if with_schema {
            assert(head =~= seq![create_table_text(schema.name@, cols, provider)]);
        } else {
            assert(head =~= Seq::<Seq<char>>::empty());
        }
    }
    let none: Vec<Document> = Vec::new();
    let stored: &Vec<Document> = match store.get_table(schema.name.as_str()) {
        Some(stored) => stored,
        None => {
            assert(documents_view(none@) =~= docs);
            &none
        },
    };
    match documents_to_sql(stored, schema, provider) {
        Ok(rows) => {
            let mut rows: Vec<String> = rows;
            let ghost tail = texts(rows@);
            statements.append(&mut rows);
            assert(texts(statements@) =~= head + tail);
            TableReport { table: schema.name.clone(), failure: None, statements }
        },
        Err(e) => {
            let nothing: Vec<String> = Vec::new();
            TableReport {
                table: schema.name.clone(),
                failure: Some(FailureCause::TypeMismatch { row: e.row, column: e.column }),
                statements: nothing,
            }
        },
    }
}

/// What is said when a table is finished: how many are, of how many, and
/// the table's name.
pub open spec fn progress_text(done: nat, total: nat, table: Seq<char>) -> Seq<char> {
    "Finished "@ + int_text(done as int) + " of "@ + int_text(total as int) + " ("@ + table + ")"@
}

/// The line that reports a finished table.
pub fn progress_line(done: usize, total: usize, table: &str) -> (r: String)
    ensures
        r@ == progress_text(done as nat, total as nat, table@),
{
    let mut out: Vec<char> = Vec::new();
    push_str(&mut out, "Finished ");
    push_digits(&mut out, done as u64);
    push_str(&mut out, " of ");
    push_digits(&mut out, total as u64);
    push_str(&mut out, " (");
    push_str(&mut out, table);
    push_str(&mut out, ")");
    assert(out@ =~= progress_text(done as nat, total as nat, table@));
    string_of(&out)
}

impl RunReport {
    /// Whether no table failed.
    pub open spec fn all_finished(&self) -> bool {
        forall|i: int| 0 <= i < self.tables@.len() ==> (#[trigger] self.tables@[i]).failure is None
    }

    /// Whether no table failed.
    pub fn succeeded(&self) -> (r: bool)
        ensures
            r == self.all_finished(),
    {
        let mut i: usize = 0;
        while i < self.tables.len()
            invariant
                i <= self.tables@.len(),
                forall|j: int| 0 <= j < i ==> (#[trigger] self.tables@[j]).failure is None,
            decreases self.tables.len() - i,
        {
            if self.tables[i].failure.is_some() {
                return false;
            }
            i += 1;
        }
        true
    }

    /// The exit code of a process after this run: 0, unless `strict` asks
    /// that a failed table fails the process and a table failed; then 1.
    pub fn exit_code(&self, strict: bool) -> (r: u8)
        ensures
            r == if strict && !self.all_finished() {
                1u8
            } else {
                0u8
            },
    {
        if strict && !self.succeeded() {
            1
        } else {
            0
        }
    }

    /// The lines that report the finished tables, in order: each counts
    /// the tables up to its own, failed ones too, of all tables of the run.
    pub open spec fn progress_texts(&self, upto: int) -> Seq<Seq<char>>
        decreases upto,
    {
        if upto <= 0 {
            Seq::<Seq<char>>::empty()
        } else if self.tables@[upto - 1].failure is None {
            self.progress_texts(upto - 1).push(
                progress_text(upto as nat, self.tables@.len(), self.tables@[upto - 1].table@),
            )
        } else {
            self.progress_texts(upto - 1)
        }
    }

    /// The lines that report the finished tables, in order.
    pub fn progress_lines(&self) -> (r: Vec<String>)
        ensures
            texts(r@) == self.progress_texts(self.tables@.len() as int),
    {
        let total: usize = self.tables.len();
        let mut out: Vec<String> = Vec::new();
        let mut i: usize = 0;
        assert(texts(out@) =~= self.progress_texts(0));
        while i < total
            invariant
                total == self.tables@.len(),
                i <= total,
                texts(out@) == self.progress_texts(i as int),
            decreases total - i,
        {
            let ghost before = texts(out@);
            if self.tables[i].failure.is_none() {
                out.push(progress_line(i + 1, total, self.tables[i].table.as_str()));
                assert(texts(out@) =~= before.push(
                    progress_text((i + 1) as nat, total as nat, self.tables@[i as int].table@),
                ));
            }
            i += 1;
        }
        out
    }
}

/// The dialect of the database that the credentials are for.
pub open spec fn provider_of(cred: DbCred) -> SqlProvider {
    match cred {
        DbCred::Mysql(_) => SqlProvider::MySql,
        DbCred::Sqlite(_) => SqlProvider::Sqlite,
    }
}

/// The dialect of the database that the credentials are for: the one to
/// open for an import.
pub fn get_db(db_credentials: &DbCred) -> (r: SqlProvider)
    ensures
        r == provider_of(*db_credentials),
{
    match db_credentials {
        DbCred::Mysql(_) => SqlProvider::MySql,
        DbCred::Sqlite(_) => SqlProvider::Sqlite,
    }
}

/// One of the things a run can do.
pub trait Task {
    /// Whether `after` and `report` are what the task makes of the
    /// database `before` and of `source`, which was read for it.
    spec fn done(
        &self,
        before: InternalDb,
        source: SourceData,
        after: InternalDb,
        report: RunReport,
    ) -> bool;

    /// Does the task on `db` with `source`, which was read for it, and
    /// reports on each table.
    fn execute(&self, db: &mut InternalDb, source: SourceData) -> (report: RunReport)
        ensures
            self.done(*old(db), source, *final(db), report),
    ;
}

/// The task that takes over the schemas of the relational database.
#[derive(Debug, PartialEq, Eq)]
pub struct ImportSchema {
    pub db_credentials: DbCred,
}

impl Task for ImportSchema {
    /// The registry holds the schemas that were read, all of them and no
    /// other; the documents are as they were.
    open spec fn done(
        &self,
        before: InternalDb,
        source: SourceData,
        after: InternalDb,
        report: RunReport,
    ) -> bool {
        &&& after.registry@ == source.schemas@
        &&& after.store@ == before.store@
        &&& report.tables@.len() == 0
    }

    fn execute(&self, db: &mut InternalDb, source: SourceData) -> (report: RunReport) {
        db.registry.replace_schemas(source.schemas);
        RunReport { tables: Vec::new() }
    }
}

/// The task that takes over the rows of the selected tables.
#[derive(Debug, PartialEq, Eq)]
pub struct ImportDb {
    pub db_credentials: DbCred,
    pub tables_to_import: Vec<TableSchema>,
}

/// The store after the import of the first `n` tables, one after the
/// other, each with what was read for it.
pub open spec fn imported_all(
    m: Map<Seq<char>, Seq<Seq<(Seq<char>, ValueView)>>>,
    tables: Seq<TableSchema>,
    answers: Seq<Option<Vec<Vec<Value>>>>,
    n: int,
) -> Map<Seq<char>, Seq<Seq<(Seq<char>, ValueView)>>>
    decreases n,
{
    if n <= 0 {
        m
    } else {
        imported(
            imported_all(m, tables, answers, n - 1),
            tables[n - 1].name@,
            tables[n - 1].columns@,
            answer_at(answers, n - 1),
        )
    }
}

/// An import leaves alone every table that is not among its tables: what
/// the store holds under a key that is the key of none of the first `n`
/// tables is what it held before.
pub proof fn lemma_import_keeps_other_tables(
    m: Map<Seq<char>, Seq<Seq<(Seq<char>, ValueView)>>>,
    tables: Seq<TableSchema>,
    answers: Seq<Option<Vec<Vec<Value>>>>,
    n: int,
    key: Seq<char>,
)
    requires
        0 <= n <= tables.len(),
        forall|i: int| 0 <= i < n ==> table_key((#[trigger] tables[i]).name@) != key,
    ensures
        imported_all(m, tables, answers, n).dom().contains(key) == m.dom().contains(key),
        m.dom().contains(key) ==> imported_all(m, tables, answers, n)[key] == m[key],
    decreases n,
{
    if n > 0 {
        lemma_import_keeps_other_tables(m, tables, answers, n - 1, key);
        assert(table_key(tables[n - 1].name@) != key);
    }
}

impl Task for ImportDb {
    /// Each table was imported in turn with what was read for it, a table
    /// without an answer as one that was not found; the report holds the
    /// verdict on each table, and the registry is as it was.
    open spec fn done(
        &self,
        before: InternalDb,
        source: SourceData,
        after: InternalDb,
        report: RunReport,
    ) -> bool {
        let tables = self.tables_to_import@;
        &&& after.registry@ == before.registry@
        &&& after.store@ == imported_all(
            before.store@,
            tables,
            source.tables@,
            tables.len() as int,
        )
        &&& report.tables@.len() == tables.len()
        &&& forall|i: int|
            0 <= i < tables.len() ==> {
                &&& (#[trigger] report.tables@[i]).table@ == tables[i].name@
                &&& report.tables@[i].statements@.len() == 0
                &&& import_judged(
                    tables[i].columns@,
                    answer_at(source.tables@, i),
                    report.tables@[i].failure,
                )
            }
    }

    fn execute(&self, db: &mut InternalDb, source: SourceData) -> (report: RunReport) {
        broadcast use vstd::std_specs::vec::axiom_spec_into_iter;

        let ghost tables = self.tables_to_import@;
        let ghost answers = source.tables@;
        let ghost start = db.store@;
        let n: usize = self.tables_to_import.len();
        let mut reports: Vec<TableReport> = Vec::new();
        for answer in it: source.tables.into_iter()
            invariant
                it.seq() == answers,
                tables == self.tables_to_import@,
                n == tables.len(),
                db.registry == old(db).registry,
                start == old(db).store@,
                reports@.len() == (if it.index@ <= n {
                    it.index@
                } else {
                    n as int
                }),
                db.store@ == imported_all(start, tables, answers, reports@.len() as int),
                forall|i: int|
                    0 <= i < reports@.len() ==> {
                        &&& (#[trigger] reports@[i]).table@ == tables[i].name@
                        &&& reports@[i].statements@.len() == 0
                        &&& import_judged(
                            tables[i].columns@,
                            answer_at(answers, i),
                            reports@[i].failure,
                        )
                    },
        {
            let i: usize = reports.len();
            if i < n {
                let schema: &TableSchema = &self.tables_to_import[i];
                assert(answer_view(answer) == answer_at(answers, i as int));
                let failure: Option<FailureCause> = import_table(schema, answer, &mut db.store);
                reports.push(
                    TableReport { table: schema.name.clone(), failure, statements: Vec::new() },
                );
            }
        }
        while reports.len() < n
            invariant
                tables == self.tables_to_import@,
                n == tables.len(),
                reports@.len() <= n,
                answers.len() <= reports@.len() || reports@.len() == n,
                db.registry == old(db).registry,
                start == old(db).store@,
                db.store@ == imported_all(start, tables, answers, reports@.len() as int),
                forall|i: int|
                    0 <= i < reports@.len() ==> {
                        &&& (#[trigger] reports@[i]).table@ == tables[i].name@
                        &&& reports@[i].statements@.len() == 0
                        &&& import_judged(
                            tables[i].columns@,
                            answer_at(answers, i),
                            reports@[i].failure,
                        )
                    },
            decreases n - reports.len(),
        {
            let i: usize = reports.len();
            let schema: &TableSchema = &self.tables_to_import[i];
            let failure: Option<FailureCause> = import_table(schema, None, &mut db.store);
            reports.push(
                TableReport { table: schema.name.clone(), failure, statements: Vec::new() },
            );
        }
        RunReport { tables: reports }
    }
}

/// The task that writes the selected tables as SQL.
#[derive(Debug, PartialEq, Eq)]
pub struct ExportToSql {
    pub sql_provider: SqlProvider,
    pub tables_to_export: Vec<TableSchema>,
    /// Whether the statement that creates a table goes before its rows.
    pub with_schema: bool,
}

impl Task for ExportToSql {
    /// The report holds, for each table in turn, the statements of its
    /// export or why it failed; the database is as it was.
    open spec fn done(
        &self,
        before: InternalDb,
        source: SourceData,
        after: InternalDb,
        report: RunReport,
    ) -> bool {
        let tables = self.tables_to_export@;
        &&& after.registry@ == before.registry@
        &&& after.store@ == before.store@
        &&& report.tables@.len() == tables.len()
        &&& forall|i: int|
            0 <= i < tables.len() ==> {
                &&& (#[trigger] report.tables@[i]).table@ == tables[i].name@
                &&& export_judged(
                    tables[i].name@,
                    tables[i].columns@,
                    documents_of(before.store@, tables[i].name@),
                    self.sql_provider,
                    self.with_schema,
                    report.tables@[i].failure,
                    texts(report.tables@[i].statements@),
                )
            }
    }

    fn execute(&self, db: &mut InternalDb, source: SourceData) -> (report: RunReport) {
        let ghost tables = self.tables_to_export@;
        let n: usize = self.tables_to_export.len();
        let mut reports: Vec<TableReport> = Vec::new();
        while reports.len() < n
            invariant
                tables == self.tables_to_export@,
                n == tables.len(),
                reports@.len() <= n,
                *db == *old(db),
                forall|i: int|
                    0 <= i < reports@.len() ==> {
                        &&& (#[trigger] reports@[i]).table@ == tables[i].name@
                        &&& export_judged(
                            tables[i].name@,
                            tables[i].columns@,
                            documents_of(db.store@, tables[i].name@),
                            self.sql_provider,
                            self.with_schema,
                            reports@[i].failure,
                            texts(reports@[i].statements@),
                        )
                    },
            decreases n - reports.len(),
        {
            let i: usize = reports.len();
            reports.push(
                export_table(
                    &self.tables_to_export[i],
                    &db.store,
                    self.sql_provider,
                    self.with_schema,
                ),
            );
        }
        RunReport { tables: reports }
    }
}

/// The task of a run.
#[derive(Debug, PartialEq, Eq)]
pub enum AnyTask {
    ImportSchema(ImportSchema),
    ImportDb(ImportDb),
    ExportToSql(ExportToSql),
}

impl Task for AnyTask {
    open spec fn done(
        &self,
        before: InternalDb,
        source: SourceData,
        after: InternalDb,
        report: RunReport,
    ) -> bool {
        match *self {
            AnyTask::ImportSchema(t) => t.done(before, source, after, report),
            AnyTask::ImportDb(t) => t.done(before, source, after, report),
            AnyTask::ExportToSql(t) => t.done(before, source, after, report),
        }
    }

    fn execute(&self, db: &mut InternalDb, source: SourceData) -> (report: RunReport) {
        match self {
            AnyTask::ImportSchema(t) => t.execute(db, source),
            AnyTask::ImportDb(t) => t.execute(db, source),
            AnyTask::ExportToSql(t) => t.execute(db, source),
        }
    }
}

} // verus!
