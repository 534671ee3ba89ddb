//! Table schemas and the registry that holds them.

use vstd::prelude::*;

verus! {

/// The declared type of a column.
#[derive(Clone, Copy, Debug, PartialEq, Eq, Structural)]
pub enum SqlType {
    Integer,
    Float,
    Text,
    Blob,
    Boolean,
    DateTime,
}

/// One column of a table.
#[derive(Debug, PartialEq, Eq)]
pub struct ColumnDef {
    pub name: String,
    pub sql_type: SqlType,
    pub nullable: bool,
    pub is_primary_key: bool,
}

impl Clone for ColumnDef {
    fn clone(&self) -> (r: Self)
        ensures
            r == *self,
    {
        ColumnDef {
            name: self.name.clone(),
            sql_type: self.sql_type,
            nullable: self.nullable,
            is_primary_key: self.is_primary_key,
        }
    }
}

/// One table: its name, its columns in order, and whether it holds design
/// data (static) or runtime data (dynamic).
#[derive(Debug, PartialEq, Eq)]
pub struct TableSchema {
    pub name: String,
    pub columns: Vec<ColumnDef>,
    pub is_static: bool,
}

/// Whether two schemas describe one table in the same way: the name, the
/// columns and the kind of data are the same.
pub open spec fn same_table(a: TableSchema, b: TableSchema) -> bool {
    a.name == b.name && a.columns@ == b.columns@ && a.is_static == b.is_static
}

/// Whether two lists describe the same tables in the same way, in order.
pub open spec fn same_tables(a: Seq<TableSchema>, b: Seq<TableSchema>) -> bool {
    a.len() == b.len() && forall|i: int| 0 <= i < a.len() ==> same_table(#[trigger] a[i], b[i])
}

impl Clone for TableSchema {
    fn clone(&self) -> (r: Self)
        ensures
            same_table(r, *self),
    {
        let mut columns: Vec<ColumnDef> = Vec::new();
        let mut i: usize = 0;
        while i < self.columns.len()
            invariant
                i <= self.columns@.len(),
                columns@ == self.columns@.take(i as int),
            decreases self.columns.len() - i,
        {
            columns.push(self.columns[i].clone());
            i += 1;
            assert(columns@ =~= self.columns@.take(i as int));
        }
        assert(self.columns@.take(self.columns@.len() as int) =~= self.columns@);
        TableSchema { name: self.name.clone(), columns, is_static: self.is_static }
    }
}

impl TableSchema {
    pub fn new(name: String, columns: Vec<ColumnDef>, is_static: bool) -> (r: TableSchema)
        ensures
            r.name == name,
            r.columns == columns,
            r.is_static == is_static,
    {
        TableSchema { name, columns, is_static }
    }

    /// Whether the table holds design data, which a bulk import may overwrite.
    pub fn is_static(&self) -> (r: bool)
        ensures
            r == self.is_static,
    {
        self.is_static
    }
}

/// The catalog of known tables, in registration order.
#[derive(Debug, PartialEq, Eq)]
pub struct SchemaRegistry {
    schemas: Vec<TableSchema>,
}

impl View for SchemaRegistry {
    type V = Seq<TableSchema>;

    closed spec fn view(&self) -> Seq<TableSchema> {
        self.schemas@
    }
}

impl SchemaRegistry {
    /// A registry that holds `schemas`, in that order.
    pub fn new(schemas: Vec<TableSchema>) -> (r: SchemaRegistry)
        ensures
            r@ == schemas@,
    {
        SchemaRegistry { schemas }
    }

    /// The current catalog, in registration order.
    pub fn get_all_schemas(&self) -> (r: &Vec<TableSchema>)
        ensures
            r@ == self@,
    {
        &self.schemas
    }

    /// Swaps the whole catalog: afterwards the registry holds exactly
    /// `new_schemas`, and no entry of the old catalog unless it is among them.
    pub fn replace_schemas(&mut self, new_schemas: Vec<TableSchema>)
        ensures
            final(self)@ == new_schemas@,
    {
        self.schemas = new_schemas;
    }
}

} // verus!
