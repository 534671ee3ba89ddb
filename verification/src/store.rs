//! The document store: the documents of each table, under the table's
//! name without regard to case.

use crate::document::{documents_view, Document, ValueView};
use crate::text::{lowercase_of, same_text, texts, to_lowercase};
use vstd::prelude::*;

verus! {

/// The documents of one table, under the table's lower-case name.
#[derive(Debug, PartialEq, Eq)]
pub struct TableData {
    key: String,
    documents: Vec<Document>,
}

/// The documents of every table that has any, in the order of the rows
/// they came from.
#[derive(Debug, PartialEq, Eq)]
pub struct DocumentStore {
    tables: Vec<TableData>,
}

/// The position of the first entry under `key`, from `from` on.
pub closed spec fn position_from(tables: Seq<TableData>, key: Seq<char>, from: int) -> Option<int>
    decreases tables.len() - from,
{
    if from < 0 || from >= tables.len() {
        None
    } else if tables[from].key@ == key {
        Some(from)
    } else {
        position_from(tables, key, from + 1)
    }
}

/// An entry under `key` at `i`, with none before it, is the first.
proof fn lemma_position_is(tables: Seq<TableData>, key: Seq<char>, from: int, i: int)
    requires
        0 <= from <= i < tables.len(),
        tables[i].key@ == key,
        forall|j: int| from <= j < i ==> tables[j].key@ != key,
    ensures
        position_from(tables, key, from) == Some(i),
    decreases i - from,
{
    if from < i {
        lemma_position_is(tables, key, from + 1, i);
    }
}

/// No entry under `key` from `from` on: no position.
proof fn lemma_position_none(tables: Seq<TableData>, key: Seq<char>, from: int)
    requires
        0 <= from,
        forall|j: int| from <= j < tables.len() ==> tables[j].key@ != key,
    ensures
        position_from(tables, key, from) is None,
    decreases tables.len() - from,
{
    if from < tables.len() {
        lemma_position_none(tables, key, from + 1);
    }
}

/// What a position says: an entry under `key` there, and none before.
proof fn lemma_position_found(tables: Seq<TableData>, key: Seq<char>, from: int)
    requires
        0 <= from,
    ensures
        match position_from(tables, key, from) {
            Some(i) => from <= i < tables.len() && tables[i].key@ == key && forall|j: int|
                from <= j < i ==> tables[j].key@ != key,
            None => forall|j: int| from <= j < tables.len() ==> tables[j].key@ != key,
        },
    decreases tables.len() - from,
{
    if from < tables.len() && tables[from].key@ != key {
        lemma_position_found(tables, key, from + 1);
    }
}

impl View for DocumentStore {
    type V = Map<Seq<char>, Seq<Seq<(Seq<char>, ValueView)>>>;

    /// The documents of each table that has any, under the table's
    /// lower-case name.
    closed spec fn view(&self) -> Map<Seq<char>, Seq<Seq<(Seq<char>, ValueView)>>> {
        Map::new(
            |key: Seq<char>| position_from(self.tables@, key, 0) is Some,
            |key: Seq<char>|
                documents_view(self.tables@[position_from(self.tables@, key, 0)->Some_0].documents@),
        )
    }
}

/// The key of a table in the store: its name in lower case.
pub open spec fn table_key(name: Seq<char>) -> Seq<char> {
    lowercase_of(name)
}

impl DocumentStore {
    /// A store without documents.
    pub fn new() -> (r: DocumentStore)
        ensures
            r@ == Map::<Seq<char>, Seq<Seq<(Seq<char>, ValueView)>>>::empty(),
    {
        let r = DocumentStore { tables: Vec::new() };
        assert forall|key: Seq<char>| !r@.dom().contains(key) by {
            lemma_position_none(r.tables@, key, 0);
        }
        assert(r@ =~= Map::<Seq<char>, Seq<Seq<(Seq<char>, ValueView)>>>::empty());
        r
    }

    /// The position of the entry under `key`.
    fn position(&self, key: &str) -> (r: Option<usize>)
        ensures
            match r {
                Some(i) => position_from(self.tables@, key@, 0) == Some(i as int) && i
                    < self.tables@.len(),
                None => position_from(self.tables@, key@, 0) is None,
            },
    {
        let mut i: usize = 0;
        while i < self.tables.len()
            invariant
                i <= self.tables@.len(),
                forall|j: int| 0 <= j < i ==> self.tables@[j].key@ != key@,
            decreases self.tables.len() - i,
        {
            if same_text(self.tables[i].key.as_str(), key) {
                proof {
                    lemma_position_is(self.tables@, key@, 0, i as int);
                }
                return Some(i);
            }
            i += 1;
        }
        proof {
            lemma_position_none(self.tables@, key@, 0);
        }
        None
    }

    /// The lower-case names of the tables that have documents stored.
    pub fn table_keys(&self) -> (r: Vec<String>)
        ensures
            forall|key: Seq<char>| self@.dom().contains(key) <==> texts(r@).contains(key),
    {
        let mut out: Vec<String> = Vec::new();
        let mut i: usize = 0;
        while i < self.tables.len()
            invariant
                i <= self.tables@.len(),
                out@.len() == i,
                forall|j: int| 0 <= j < i ==> (#[trigger] out@[j])@ == self.tables@[j].key@,
            decreases self.tables.len() - i,
        {
            out.push(self.tables[i].key.clone());
            i += 1;
        }
        proof {
            assert forall|key: Seq<char>| self@.dom().contains(key) <==> texts(out@).contains(
                key,
            ) by {
                lemma_position_found(self.tables@, key, 0);
                if self@.dom().contains(key) {
                    let j = position_from(self.tables@, key, 0)->Some_0;
                    assert(texts(out@)[j] == key);
                }
                if texts(out@).contains(key) {
                    let j = choose|j: int| 0 <= j < out@.len() && texts(out@)[j] == key;
                    assert(self.tables@[j].key@ == key);
                }
            }
        }
        out
    }

    /// The documents of the table `name`, if it has any stored.
    pub fn get_table(&self, name: &str) -> (r: Option<&Vec<Document>>)
        ensures
            match r {
                Some(docs) => self@.dom().contains(table_key(name@)) && self@[table_key(name@)]
                    == documents_view(docs@),
                None => !self@.dom().contains(table_key(name@)),
            },
    {
        let key: String = to_lowercase(name);
        self.get_by_key(key.as_str())
    }

    /// The documents stored under the key `key`, if there are any.
    pub fn get_by_key(&self, key: &str) -> (r: Option<&Vec<Document>>)
        ensures
            match r {
                Some(docs) => self@.dom().contains(key@) && self@[key@] == documents_view(docs@),
                None => !self@.dom().contains(key@),
            },
    {
        match self.position(key) {
            Some(i) => Some(&self.tables[i].documents),
            None => None,
        }
    }

    /// Puts `documents` in the place of all documents of the table `name`.
    /// The documents of every other table stay as they are.
    pub fn replace_table(&mut self, name: &str, documents: Vec<Document>)
        ensures
            final(self)@ == old(self)@.insert(table_key(name@), documents_view(documents@)),
    {
        let key: String = to_lowercase(name);
        self.replace_by_key(key, documents);
    }

    /// Puts `documents` in the place of all documents under the key `key`.
    /// The documents under every other key stay as they are.
    pub fn replace_by_key(&mut self, key: String, documents: Vec<Document>)
        ensures
            final(self)@ == old(self)@.insert(key@, documents_view(documents@)),
    {
        let ghost before = self.tables@;
        let ghost slot: int = match position_from(before, key@, 0) {
            Some(i) => i,
            None => before.len() as int,
        };
        match self.position(key.as_str()) {
            Some(i) => {
                let entry = TableData { key, documents };
                self.tables.set(i, entry);
            },
            None => {
                let entry = TableData { key, documents };
                self.tables.push(entry);
            },
        }
        proof {
            let after = self.tables@;
            lemma_position_found(before, key@, 0);
            lemma_position_is(after, key@, 0, slot);
            assert forall|other: Seq<char>| other != key@ implies position_from(after, other, 0)
                == position_from(before, other, 0) by {
                lemma_position_found(before, other, 0);
                match position_from(before, other, 0) {
                    Some(j) => {
                        lemma_position_is(after, other, 0, j);
                    },
                    None => {
                        lemma_position_none(after, other, 0);
                    },
                }
            }
            assert forall|other: Seq<char>| other != key@ && position_from(before, other, 0)
                is Some implies after[position_from(before, other, 0)->Some_0]
                == before[position_from(before, other, 0)->Some_0] by {
                lemma_position_found(before, other, 0);
            }
            assert(final(self)@ =~= old(self)@.insert(key@, documents_view(documents@)));
        }
    }
}

} // verus!
