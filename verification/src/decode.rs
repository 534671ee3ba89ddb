//! Reading back the statements that the export writes.

use crate::codec::{
    all_documents_conform, batch_text, batches_rows, column_names, conforms_at, create_table_text,
    document_conforms, field_literals, field_names, fits_at, insert_statements, insert_text,
    joined, lemma_batch_of_one, row_fits, row_text, row_texts, typed_row,
};
use crate::document::{SqlProvider, Value, ValueView};
use crate::literal::{literal_text, name_mark, name_mark_of, quoted, quoted_name};
use crate::scan::{
    ends_item, has_at, lemma_has_at_chars, lemma_has_at_split, lemma_scan_literal,
    lemma_scan_quoted, read_back, read_literal, read_quoted, scan_literal, scan_quoted, word_at,
    writable,
};
use crate::schema::{ColumnDef, TableSchema};
use crate::store::table_key;
use crate::task::{
    all_rows_fit, answer_at, export_statements, imported, imported_all, rows_view, typed_rows,
};
use crate::text::{chars_of, string_of, texts};
use vstd::prelude::*;

verus! {

/// The items of a list from position `i` on, after `acc`, and where the
/// list ends: each item as `scan` reads it, a comma and a space between
/// two items, and the character `close` after the last.
pub open spec fn items_from<T>(
    s: Seq<char>,
    i: int,
    scan: spec_fn(Seq<char>, int) -> Option<(T, int)>,
    close: char,
    acc: Seq<T>,
) -> Option<(Seq<T>, int)>
    decreases s.len() - i,
{
    match scan(s, i) {
        None => None,
        Some((item, e)) => if e <= i || e > s.len() {
            None
        } else if has_at(s, e, seq![',', ' ']) {
            items_from(s, e + 2, scan, close, acc.push(item))
        } else if has_at(s, e, seq![close]) {
            Some((acc.push(item), e + 1))
        } else {
            None
        },
    }
}

/// The items of the list whose first item, or the character `close` of a
/// list without items, stands at position `i`, and where the list ends.
pub open spec fn scan_items<T>(
    s: Seq<char>,
    i: int,
    scan: spec_fn(Seq<char>, int) -> Option<(T, int)>,
    close: char,
) -> Option<(Seq<T>, int)> {
    if has_at(s, i, seq![close]) {
        Some((Seq::<T>::empty(), i + 1))
    } else {
        items_from(s, i, scan, close, Seq::<T>::empty())
    }
}

/// How a name between marks `q` is read.
pub open spec fn name_scanner(q: char) -> spec_fn(Seq<char>, int) -> Option<(Seq<char>, int)> {
    |s: Seq<char>, i: int| scan_quoted(s, i, q, false)
}

/// How a literal of the dialect `p` is read.
pub open spec fn value_scanner(p: SqlProvider) -> spec_fn(Seq<char>, int) -> Option<
    (ValueView, int),
> {
    |s: Seq<char>, i: int| scan_literal(s, i, p)
}

/// Where the item at `k` starts in a list that is written at `base`.
pub open spec fn item_start(parts: Seq<Seq<char>>, base: int, k: int) -> int {
    if k == 0 {
        base
    } else {
        base + joined(parts.take(k)).len() + 2
    }
}

/// The first items of a list, written, stand at the beginning of the
/// whole list, written.
pub proof fn lemma_joined_prefix(parts: Seq<Seq<char>>, k: int)
    requires
        0 <= k <= parts.len(),
    ensures
        joined(parts.take(k)).is_prefix_of(joined(parts)),
    decreases parts.len() - k,
{
    if k == parts.len() {
        assert(parts.take(k) =~= parts);
    } else {
        lemma_joined_prefix(parts, k + 1);
        assert(parts.take(k + 1).drop_last() =~= parts.take(k));
        if k == 0 {
            assert(joined(parts.take(0)) =~= Seq::<char>::empty());
        }
    }
}

/// How the first items of a list are written: the first alone, each
/// further one after those before it, a comma and a space.
proof fn lemma_joined_step(parts: Seq<Seq<char>>, k: int)
    requires
        0 <= k < parts.len(),
    ensures
        joined(parts.take(k + 1)) == if k == 0 {
            parts[0]
        } else {
            joined(parts.take(k)) + seq![',', ' '] + parts[k]
        },
{
    assert(parts.take(k + 1).drop_last() =~= parts.take(k));
    assert(parts.take(k + 1).last() == parts[k]);
}

/// Where a list stands, its first items, written, stand too.
proof fn lemma_prefix_stands(s: Seq<char>, base: int, parts: Seq<Seq<char>>, j: int)
    requires
        0 <= j <= parts.len(),
        has_at(s, base, joined(parts)),
    ensures
        has_at(s, base, joined(parts.take(j))),
{
    let whole = joined(parts);
    let upto = joined(parts.take(j));
    lemma_joined_prefix(parts, j);
    assert(whole =~= upto + whole.skip(upto.len() as int));
    lemma_has_at_split(s, base, upto, whole.skip(upto.len() as int));
}

/// In a list that is written at `base`, each item stands where it
/// starts; a comma and a space follow it if it is not the last, and the
/// last ends where the list ends.
pub proof fn lemma_item_stands(s: Seq<char>, base: int, parts: Seq<Seq<char>>, k: int)
    requires
        0 <= k < parts.len(),
        has_at(s, base, joined(parts)),
    ensures
        has_at(s, item_start(parts, base, k), parts[k]),
        item_start(parts, base, k) + parts[k].len() == base + joined(parts.take(k + 1)).len(),
        k + 1 < parts.len() ==> has_at(
            s,
            base + joined(parts.take(k + 1)).len(),
            seq![',', ' '],
        ),
        k + 1 == parts.len() ==> joined(parts.take(k + 1)) == joined(parts),
{
    let upto = joined(parts.take(k + 1));
    lemma_prefix_stands(s, base, parts, k + 1);
    lemma_joined_step(parts, k);
    if k > 0 {
        let before = joined(parts.take(k));
        assert(has_at(s, item_start(parts, base, k), parts[k])) by {
            assert(upto =~= (before + seq![',', ' ']) + parts[k]);
            lemma_has_at_split(s, base, before + seq![',', ' '], parts[k]);
        }
    }
    if k + 1 < parts.len() {
        let more = joined(parts.take(k + 2));
        lemma_prefix_stands(s, base, parts, k + 2);
        lemma_joined_step(parts, k + 1);
        assert(has_at(s, base + upto.len(), seq![',', ' '])) by {
            assert(more =~= upto + (seq![',', ' '] + parts[k + 1]));
            lemma_has_at_split(s, base, upto, seq![',', ' '] + parts[k + 1]);
            lemma_has_at_split(s, base + upto.len(), seq![',', ' '], parts[k + 1]);
        }
    } else {
        assert(parts.take(k + 1) =~= parts);
    }
}

/// A list that was written reads back item by item: where each written
/// item reads back as its item whenever the end of an item follows it,
/// reading from the start of the item at `k`, after the items before it,
/// gives all items and ends after the character `close`.
pub proof fn lemma_items_from<T>(
    s: Seq<char>,
    base: int,
    parts: Seq<Seq<char>>,
    items: Seq<T>,
    scan: spec_fn(Seq<char>, int) -> Option<(T, int)>,
    close: char,
    k: int,
)
    requires
        close != ',',
        0 <= k < parts.len(),
        parts.len() == items.len(),
        has_at(s, base, joined(parts) + seq![close]),
        forall|j: int| 0 <= j < parts.len() ==> (#[trigger] parts[j]).len() > 0,
        forall|j: int, pos: int|
            0 <= j < parts.len() && #[trigger] has_at(s, pos, parts[j]) && pos + parts[j].len()
                < s.len() && (s[pos + parts[j].len()] == ',' || s[pos + parts[j].len()] == close) ==> scan(s, pos) == Some(
                (items[j], pos + parts[j].len()),
            ),
    ensures
        items_from(s, item_start(parts, base, k), scan, close, items.take(k)) == Some(
            (items, base + joined(parts).len() + 1),
        ),
    decreases parts.len() - k,
{
    let whole = joined(parts);
    lemma_has_at_split(s, base, whole, seq![close]);
    lemma_has_at_chars(s, base + whole.len(), seq![close]);
    assert(s[base + whole.len() + 0] == seq![close][0]);
    lemma_item_stands(s, base, parts, k);
    let start = item_start(parts, base, k);
    let end = start + parts[k].len();
    assert(parts[k].len() > 0);
    assert(items.take(k).push(items[k]) =~= items.take(k + 1));
    if k + 1 < parts.len() {
        lemma_has_at_chars(s, end, seq![',', ' ']);
        assert(s[end + 0] == seq![',', ' '][0]);
        assert(has_at(s, start, parts[k]));
        assert(scan(s, start) == Some((items[k], end)));
        lemma_items_from(s, base, parts, items, scan, close, k + 1);
    } else {
        assert(end == base + whole.len());
        assert(has_at(s, start, parts[k]));
        assert(scan(s, start) == Some((items[k], end)));
        lemma_has_at_chars(s, end, seq![',', ' ']);
        if has_at(s, end, seq![',', ' ']) {
            assert(s[end + 0] == seq![',', ' '][0]);
        }
        assert(items.take(k + 1) =~= items);
    }
}

/// A list that was written, with the character `close` after it, reads
/// back as its items and ends after that character.
pub proof fn lemma_scan_items<T>(
    s: Seq<char>,
    base: int,
    parts: Seq<Seq<char>>,
    items: Seq<T>,
    scan: spec_fn(Seq<char>, int) -> Option<(T, int)>,
    close: char,
)
    requires
        close != ',',
        parts.len() == items.len(),
        has_at(s, base, joined(parts) + seq![close]),
        forall|j: int| 0 <= j < parts.len() ==> (#[trigger] parts[j]).len() > 0,
        forall|j: int| 0 <= j < parts.len() ==> (#[trigger] parts[j])[0] != close,
        forall|j: int, pos: int|
            0 <= j < parts.len() && #[trigger] has_at(s, pos, parts[j]) && pos + parts[j].len()
                < s.len() && (s[pos + parts[j].len()] == ',' || s[pos + parts[j].len()] == close) ==> scan(s, pos) == Some(
                (items[j], pos + parts[j].len()),
            ),
    ensures
        scan_items(s, base, scan, close) == Some((items, base + joined(parts).len() + 1)),
{
    lemma_has_at_chars(s, base, seq![close]);
    if parts.len() == 0 {
        assert(joined(parts) + seq![close] =~= seq![close]);
        assert(items =~= Seq::<T>::empty());
    } else {
        lemma_has_at_split(s, base, joined(parts), seq![close]);
        lemma_item_stands(s, base, parts, 0);
        lemma_has_at_chars(s, base, parts[0]);
        assert(s[base + 0] == parts[0][0]);
        if has_at(s, base, seq![close]) {
            assert(s[base + 0] == seq![close][0]);
        }
        assert(items.take(0) =~= Seq::<T>::empty());
        lemma_items_from(s, base, parts, items, scan, close, 0);
    }
}

/// What a statement says: the table, the names of the columns and the
/// values, in order.
#[derive(Debug, PartialEq, Eq)]
pub struct DecodedRow {
    pub table: String,
    pub columns: Vec<String>,
    pub values: Vec<Value>,
}

impl View for DecodedRow {
    type V = (Seq<char>, Seq<Seq<char>>, Seq<ValueView>);

    open spec fn view(&self) -> (Seq<char>, Seq<Seq<char>>, Seq<ValueView>) {
        (self.table@, texts(self.columns@), crate::document::row_view(self.values@))
    }
}

/// What the statement `s` says, if it is a statement that inserts one row
/// as the export writes it in the dialect `p`: the table's name, the names
/// of the columns and the values as they read back.
pub open spec fn decoded(s: Seq<char>, p: SqlProvider) -> Option<
    (Seq<char>, Seq<Seq<char>>, Seq<ValueView>),
> {
    let q = name_mark(p);
    if !has_at(s, 0, "INSERT INTO "@) {
        None
    } else {
        match scan_quoted(s, "INSERT INTO "@.len() as int, q, false) {
            None => None,
            Some((table, e1)) => if !has_at(s, e1, " ("@) {
                None
            } else {
                match scan_items(s, e1 + " ("@.len(), name_scanner(q), ')') {
                    None => None,
                    Some((names, e2)) => if !has_at(s, e2, " VALUES ("@) {
                        None
                    } else {
                        match scan_items(s, e2 + " VALUES ("@.len(), value_scanner(p), ')') {
                            None => None,
                            Some((values, e3)) => if has_at(s, e3, ";"@) && e3 + ";"@.len()
                                == s.len() {
                                Some((table, names, values))
                            } else {
                                None
                            },
                        }
                    },
                }
            },
        }
    }
}

/// Reads the list of names between marks `q` whose first name, or closing
/// bracket, stands at position `i`.
pub fn read_names(s: &Vec<char>, i: usize, q: char) -> (r: Option<(Vec<String>, usize)>)
    ensures
        match scan_items(s@, i as int, name_scanner(q), ')') {
            Some((names, e)) => r matches Some(x) && texts(x.0@) == names && x.1 == e && i < e
                <= s.len(),
            None => r is None,
        },
{
    if i > s.len() {
        return None;
    }
    let close: Vec<char> = vec![')'];
    let sep: Vec<char> = vec![',', ' '];
    assert(close@ =~= seq![')']);
    assert(sep@ =~= seq![',', ' ']);
    if word_at(s, i, &close) {
        let none: Vec<String> = Vec::new();
        assert(texts(none@) =~= Seq::<Seq<char>>::empty());
        return Some((none, i + 1));
    }
    let mut out: Vec<String> = Vec::new();
    let mut j: usize = i;
    assert(texts(out@) =~= Seq::<Seq<char>>::empty());
    loop
        invariant
            i <= j <= s.len(),
            close@ == seq![')'],
            sep@ == seq![',', ' '],
            items_from(s@, j as int, name_scanner(q), ')', texts(out@)) == scan_items(
                s@,
                i as int,
                name_scanner(q),
                ')',
            ),
        decreases s.len() - j,
    {
        let ghost before = texts(out@);
        match read_quoted(s, j, q, false) {
            None => {
                return None;
            },
            Some((t, e)) => {
                out.push(string_of(&t));
                assert(texts(out@) =~= before.push(t@));
                if word_at(s, e, &sep) {
                    j = e + 2;
                } else if word_at(s, e, &close) {
                    return Some((out, e + 1));
                } else {
                    return None;
                }
            },
        }
    }
}

/// Reads the list of literals of the dialect `p` whose first literal, or
/// closing bracket, stands at position `i`.
pub fn read_values(s: &Vec<char>, i: usize, p: SqlProvider) -> (r: Option<(Vec<Value>, usize)>)
    ensures
        match scan_items(s@, i as int, value_scanner(p), ')') {
            Some((values, e)) => r matches Some(x) && crate::document::row_view(x.0@) == values
                && x.1 == e && i < e <= s.len(),
            None => r is None,
        },
{
    if i > s.len() {
        return None;
    }
    let close: Vec<char> = vec![')'];
    let sep: Vec<char> = vec![',', ' '];
    assert(close@ =~= seq![')']);
    assert(sep@ =~= seq![',', ' ']);
    if word_at(s, i, &close) {
        let none: Vec<Value> = Vec::new();
        assert(crate::document::row_view(none@) =~= Seq::<ValueView>::empty());
        return Some((none, i + 1));
    }
    let mut out: Vec<Value> = Vec::new();
    let mut j: usize = i;
    assert(crate::document::row_view(out@) =~= Seq::<ValueView>::empty());
    loop
        invariant
            i <= j <= s.len(),
            close@ == seq![')'],
            sep@ == seq![',', ' '],
            items_from(s@, j as int, value_scanner(p), ')', crate::document::row_view(out@))
                == scan_items(s@, i as int, value_scanner(p), ')'),
        decreases s.len() - j,
    {
        let ghost before = crate::document::row_view(out@);
        match read_literal(s, j, p) {
            None => {
                return None;
            },
            Some((v, e)) => {
                let ghost view = v@;
                out.push(v);
                assert(crate::document::row_view(out@) =~= before.push(view));
                if word_at(s, e, &sep) {
                    j = e + 2;
                } else if word_at(s, e, &close) {
                    return Some((out, e + 1));
                } else {
                    return None;
                }
            },
        }
    }
}

/// Reads a statement that inserts one row, as the export writes it in the
/// dialect `provider`: the table's name, the names of the columns and the
/// values. Any other text is not read.
pub fn decode_insert(sql: &str, provider: SqlProvider) -> (r: Option<DecodedRow>)
    ensures
        match decoded(sql@, provider) {
            Some(d) => r matches Some(row) && row@ == d,
            None => r is None,
        },
{
    let s: Vec<char> = chars_of(sql);
    let q: char = name_mark_of(provider);
    let head: Vec<char> = chars_of("INSERT INTO ");
    let open: Vec<char> = chars_of(" (");
    let middle: Vec<char> = chars_of(" VALUES (");
    let end: Vec<char> = chars_of(";");
    if !word_at(&s, 0, &head) {
        return None;
    }
    let (table, e1) = match read_quoted(&s, head.len(), q, false) {
        Some(x) => x,
        None => {
            return None;
        },
    };
    if !word_at(&s, e1, &open) {
        return None;
    }
    let (columns, e2) = match read_names(&s, e1 + open.len(), q) {
        Some(x) => x,
        None => {
            return None;
        },
    };
    if !word_at(&s, e2, &middle) {
        return None;
    }
    let (values, e3) = match read_values(&s, e2 + middle.len(), provider) {
        Some(x) => x,
        None => {
            return None;
        },
    };
    if !word_at(&s, e3, &end) {
        return None;
    }
    if e3 + end.len() != s.len() {
        return None;
    }
    Some(DecodedRow { table: string_of(&table), columns, values })
}

/// The names of the fields of a document, in order.
pub open spec fn names_of(doc: Seq<(Seq<char>, ValueView)>) -> Seq<Seq<char>> {
    Seq::new(doc.len(), |j: int| doc[j].0)
}

/// The values of the fields of a document as their literals read back in
/// the dialect `p`, in order.
pub open spec fn reads_of(doc: Seq<(Seq<char>, ValueView)>, p: SqlProvider) -> Seq<ValueView> {
    Seq::new(doc.len(), |j: int| read_back(doc[j].1, p))
}

/// Whether every value of the document can be written as a literal that
/// reads back.
pub open spec fn all_writable(doc: Seq<(Seq<char>, ValueView)>) -> bool {
    forall|j: int| 0 <= j < doc.len() ==> writable((#[trigger] doc[j]).1)
}

/// A literal holds a character, and does not start with a closing bracket.
proof fn lemma_literal_start(v: ValueView, p: SqlProvider)
    requires
        writable(v),
    ensures
        literal_text(v, p).len() > 0,
        literal_text(v, p)[0] != ')',
{
    match v {
        ValueView::Integer(x) => {
            let n: nat = if x < 0 {
                (-(x as int)) as nat
            } else {
                x as nat
            };
            crate::numeral::lemma_digits_round_trip(n);
            assert(crate::numeral::is_digit(crate::numeral::digits_of(n)[0]));
        },
        ValueView::Float(t) => {
            crate::numeral::lemma_digits_end(t, 0);
            crate::numeral::lemma_digits_end(t, 1);
        },
        ValueView::Text(t) => {
            assert(literal_text(v, p)[0] == '\'');
        },
        ValueView::DateTime(t) => {
            assert(literal_text(v, p)[0] == '\'');
        },
        ValueView::Blob(b) => {
            assert(literal_text(v, p)[0] == 'X');
        },
        _ => {},
    }
}

/// The words between the parts of a statement, character by character.
proof fn lemma_words()
    ensures
        " ("@.len() == 2,
        " ("@[0] == ' ',
        ") VALUES ("@ == seq![')'] + " VALUES ("@,
        ");"@ == seq![')'] + ";"@,
        ";"@.len() == 1,
{
    reveal_strlit(" (");
    reveal_strlit(") VALUES (");
    reveal_strlit(" VALUES (");
    reveal_strlit(");");
    reveal_strlit(";");
    assert(") VALUES ("@ =~= seq![')'] + " VALUES ("@);
    assert(");"@ =~= seq![')'] + ";"@);
}

/// Names between marks `q`, in order.
pub open spec fn quoted_names(names: Seq<Seq<char>>, q: char) -> Seq<Seq<char>> {
    Seq::new(names.len(), |j: int| quoted(names[j], q, false))
}

/// Names that were written between marks as a list, with its closing
/// bracket, read back as the names.
proof fn lemma_scan_quoted_names(s: Seq<char>, base: int, names: Seq<Seq<char>>, q: char)
    requires
        q != ',',
        q != ')',
        has_at(s, base, joined(quoted_names(names, q)) + seq![')']),
    ensures
        scan_items(s, base, name_scanner(q), ')') == Some(
            (names, base + joined(quoted_names(names, q)).len() + 1),
        ),
{
    let parts = quoted_names(names, q);
    assert forall|j: int| 0 <= j < parts.len() implies (#[trigger] parts[j]).len() > 0 by {
        assert(parts[j] == quoted(names[j], q, false));
    }
    assert forall|j: int| 0 <= j < parts.len() implies (#[trigger] parts[j])[0] != ')' by {
        assert(parts[j] == quoted(names[j], q, false));
        assert(parts[j][0] == q);
    }
    assert forall|j: int, pos: int|
        0 <= j < parts.len() && #[trigger] has_at(s, pos, parts[j]) && pos + parts[j].len()
            < s.len() && (s[pos + parts[j].len()] == ',' || s[pos + parts[j].len()] == ')')
        implies name_scanner(q)(s, pos) == Some((names[j], pos + parts[j].len())) by {
        lemma_scan_quoted(s, pos, names[j], q, false);
    }
    lemma_scan_items(s, base, parts, names, name_scanner(q), ')');
}

/// The names of the fields of a document, written as a list with its
/// closing bracket, read back as the names.
proof fn lemma_scan_names(s: Seq<char>, base: int, doc: Seq<(Seq<char>, ValueView)>, p: SqlProvider)
    requires
        has_at(s, base, joined(field_names(doc, p)) + seq![')']),
    ensures
        scan_items(s, base, name_scanner(name_mark(p)), ')') == Some(
            (names_of(doc), base + joined(field_names(doc, p)).len() + 1),
        ),
{
    assert(field_names(doc, p) =~= quoted_names(names_of(doc), name_mark(p)));
    lemma_scan_quoted_names(s, base, names_of(doc), name_mark(p));
}

/// The values of the fields of a document, written as a list with its
/// closing bracket, read back as their literals do.
proof fn lemma_scan_values(
    s: Seq<char>,
    base: int,
    doc: Seq<(Seq<char>, ValueView)>,
    p: SqlProvider,
)
    requires
        all_writable(doc),
        has_at(s, base, joined(field_literals(doc, p)) + seq![')']),
    ensures
        scan_items(s, base, value_scanner(p), ')') == Some(
            (reads_of(doc, p), base + joined(field_literals(doc, p)).len() + 1),
        ),
{
    let lits = field_literals(doc, p);
    assert forall|j: int| 0 <= j < lits.len() implies (#[trigger] lits[j]).len() > 0 by {
        lemma_literal_start(doc[j].1, p);
    }
    assert forall|j: int| 0 <= j < lits.len() implies (#[trigger] lits[j])[0] != ')' by {
        lemma_literal_start(doc[j].1, p);
    }
    assert forall|j: int, pos: int|
        0 <= j < lits.len() && #[trigger] has_at(s, pos, lits[j]) && pos + lits[j].len() < s.len()
            && ends_item(s[pos + lits[j].len()]) implies value_scanner(p)(s, pos) == Some(
        (reads_of(doc, p)[j], pos + lits[j].len()),
    ) by {
        lemma_scan_literal(s, pos, doc[j].1, p);
    }
    lemma_scan_items(s, base, lits, reads_of(doc, p), value_scanner(p), ')');
}

/// Where the parts of a statement stand in it.
proof fn lemma_insert_layout(
    s: Seq<char>,
    a: Seq<char>,
    b: Seq<char>,
    c: Seq<char>,
    d: Seq<char>,
    e: Seq<char>,
    f: Seq<char>,
    g: Seq<char>,
)
    requires
        s == a + b + c + d + e + f + g,
    ensures
        has_at(s, 0, a),
        has_at(s, a.len() as int, b),
        has_at(s, (a.len() + b.len()) as int, c),
        has_at(s, (a.len() + b.len() + c.len()) as int, d),
        has_at(s, (a.len() + b.len() + c.len() + d.len()) as int, e),
        has_at(s, (a.len() + b.len() + c.len() + d.len() + e.len()) as int, f),
        has_at(s, (a.len() + b.len() + c.len() + d.len() + e.len() + f.len()) as int, g),
        s.len() == a.len() + b.len() + c.len() + d.len() + e.len() + f.len() + g.len(),
{
    assert(has_at(s, 0, s)) by {
        assert(s.subrange(0, s.len() as int) =~= s);
    }
    lemma_has_at_split(s, 0, a + b + c + d + e + f, g);
    lemma_has_at_split(s, 0, a + b + c + d + e, f);
    lemma_has_at_split(s, 0, a + b + c + d, e);
    lemma_has_at_split(s, 0, a + b + c, d);
    lemma_has_at_split(s, 0, a + b, c);
    lemma_has_at_split(s, 0, a, b);
}

/// The statement that the export writes for a document reads back as the
/// table's name, the names of the fields and the values as their literals
/// read back, if every fraction in the document is a decimal fraction.
pub proof fn lemma_decode_insert(
    table: Seq<char>,
    doc: Seq<(Seq<char>, ValueView)>,
    p: SqlProvider,
)
    requires
        all_writable(doc),
    ensures
        decoded(insert_text(table, doc, p), p) == Some((table, names_of(doc), reads_of(doc, p))),
{
    let q = name_mark(p);
    let a = "INSERT INTO "@;
    let b = quoted_name(table, p);
    let c = " ("@;
    let d = joined(field_names(doc, p));
    let e = ") VALUES ("@;
    let f = joined(field_literals(doc, p));
    let g = ");"@;
    let s = insert_text(table, doc, p);
    lemma_insert_layout(s, a, b, c, d, e, f, g);
    lemma_words();
    let at1 = a.len() as int;
    let at2 = at1 + b.len();
    let at3 = at2 + c.len();
    let at4 = at3 + d.len();
    let at5 = at4 + e.len();
    let at6 = at5 + f.len();
    assert(scan_quoted(s, at1, q, false) == Some((table, at2))) by {
        lemma_has_at_chars(s, at2, c);
        assert(s[at2 + 0] == c[0]);
        lemma_scan_quoted(s, at1, table, q, false);
    }
    assert(scan_items(s, at3, name_scanner(q), ')') == Some((names_of(doc), at4 + 1))) by {
        lemma_has_at_split(s, at4, seq![')'], " VALUES ("@);
        lemma_has_at_split(s, at3, d, seq![')']);
        lemma_scan_names(s, at3, doc, p);
    }
    assert(has_at(s, at4 + 1, " VALUES ("@)) by {
        lemma_has_at_split(s, at4, seq![')'], " VALUES ("@);
    }
    assert(at4 + 1 + " VALUES ("@.len() == at5);
    assert(scan_items(s, at5, value_scanner(p), ')') == Some((reads_of(doc, p), at6 + 1))) by {
        lemma_has_at_split(s, at6, seq![')'], ";"@);
        lemma_has_at_split(s, at5, f, seq![')']);
        lemma_scan_values(s, at5, doc, p);
    }
    assert(has_at(s, at6 + 1, ";"@)) by {
        lemma_has_at_split(s, at6, seq![')'], ";"@);
    }
    assert(at6 + 1 + ";"@.len() == s.len());
}

/// Export and import again lose nothing: the statement that the export
/// writes for a document that conforms to the columns reads back, in the
/// same dialect, as a row that fits the columns, and the document of that
/// row is the document that was written.
pub proof fn lemma_export_then_import(
    table: Seq<char>,
    doc: Seq<(Seq<char>, ValueView)>,
    cols: Seq<ColumnDef>,
    p: SqlProvider,
)
    requires
        document_conforms(doc, cols),
    ensures
        decoded(insert_text(table, doc, p), p) == Some((table, names_of(doc), reads_of(doc, p))),
        row_fits(reads_of(doc, p), cols),
        typed_row(reads_of(doc, p), cols) == doc,
{
    let row = reads_of(doc, p);
    assert forall|j: int| 0 <= j < doc.len() implies writable((#[trigger] doc[j]).1) by {
        assert(conforms_at(doc, cols, j));
    }
    lemma_decode_insert(table, doc, p);
    assert forall|j: int| 0 <= j < cols.len() implies fits_at(row, cols, j) && typed_row(
        row,
        cols,
    )[j] == doc[j] by {
        assert(conforms_at(doc, cols, j));
    }
    assert(typed_row(row, cols) =~= doc);
}

/// What a statement with one row or more says: the table, the names of
/// the columns and the rows, in order.
#[derive(Debug, PartialEq, Eq)]
pub struct DecodedRows {
    pub table: String,
    pub columns: Vec<String>,
    pub rows: Vec<Vec<Value>>,
}

impl View for DecodedRows {
    type V = (Seq<char>, Seq<Seq<char>>, Seq<Seq<ValueView>>);

    open spec fn view(&self) -> (Seq<char>, Seq<Seq<char>>, Seq<Seq<ValueView>>) {
        (self.table@, texts(self.columns@), rows_view(self.rows@))
    }
}

/// How the values of one row, in brackets, are read.
pub open spec fn row_scanner(p: SqlProvider) -> spec_fn(Seq<char>, int) -> Option<
    (Seq<ValueView>, int),
> {
    |s: Seq<char>, i: int|
        if has_at(s, i, seq!['(']) {
            scan_items(s, i + 1, value_scanner(p), ')')
        } else {
            None
        }
}

/// What the statement `s` says, if it is a statement that inserts one row
/// or more as the export writes it in the dialect `p`: the table's name,
/// the names of the columns and the rows with their values as they read
/// back.
pub open spec fn decoded_batch(s: Seq<char>, p: SqlProvider) -> Option<
    (Seq<char>, Seq<Seq<char>>, Seq<Seq<ValueView>>),
> {
    let q = name_mark(p);
    if !has_at(s, 0, "INSERT INTO "@) {
        None
    } else {
        match scan_quoted(s, "INSERT INTO "@.len() as int, q, false) {
            None => None,
            Some((table, e1)) => if !has_at(s, e1, " ("@) {
                None
            } else {
                match scan_items(s, e1 + " ("@.len(), name_scanner(q), ')') {
                    None => None,
                    Some((names, e2)) => if !has_at(s, e2, " VALUES "@) {
                        None
                    } else {
                        match items_from(
                            s,
                            e2 + " VALUES "@.len(),
                            row_scanner(p),
                            ';',
                            Seq::<Seq<ValueView>>::empty(),
                        ) {
                            None => None,
                            Some((rows, e3)) => if e3 == s.len() {
                                Some((table, names, rows))
                            } else {
                                None
                            },
                        }
                    },
                }
            },
        }
    }
}

/// Reads the rows in brackets of which the first stands at position `i`,
/// up to the semicolon after the last.
pub fn read_rows(s: &Vec<char>, i: usize, p: SqlProvider) -> (r: Option<(Vec<Vec<Value>>, usize)>)
    ensures
        match items_from(
            s@,
            i as int,
            row_scanner(p),
            ';',
            Seq::<Seq<ValueView>>::empty(),
        ) {
            Some((rows, e)) => r matches Some(x) && rows_view(x.0@) == rows && x.1 == e && i < e
                <= s.len(),
            None => r is None,
        },
{
    if i > s.len() {
        return None;
    }
    let open: Vec<char> = vec!['('];
    let close: Vec<char> = vec![';'];
    let sep: Vec<char> = vec![',', ' '];
    assert(open@ =~= seq!['(']);
    assert(close@ =~= seq![';']);
    assert(sep@ =~= seq![',', ' ']);
    let mut out: Vec<Vec<Value>> = Vec::new();
    let mut j: usize = i;
    assert(rows_view(out@) =~= Seq::<Seq<ValueView>>::empty());
    loop
        invariant
            i <= j <= s.len(),
            open@ == seq!['('],
            close@ == seq![';'],
            sep@ == seq![',', ' '],
            items_from(s@, j as int, row_scanner(p), ';', rows_view(out@)) == items_from(
                s@,
                i as int,
                row_scanner(p),
                ';',
                Seq::<Seq<ValueView>>::empty(),
            ),
        decreases s.len() - j,
    {
        let ghost before = rows_view(out@);
        if !word_at(s, j, &open) {
            return None;
        }
        match read_values(s, j + 1, p) {
            None => {
                return None;
            },
            Some((row, e)) => {
                let ghost view = crate::document::row_view(row@);
                out.push(row);
                assert(rows_view(out@) =~= before.push(view));
                if word_at(s, e, &sep) {
                    j = e + 2;
                } else if word_at(s, e, &close) {
                    return Some((out, e + 1));
                } else {
                    return None;
                }
            },
        }
    }
}

/// Reads a statement that inserts one row or more, as the export writes
/// it in the dialect `provider`: the table's name, the names of the
/// columns and the rows. Any other text is not read.
pub fn decode_batch(sql: &str, provider: SqlProvider) -> (r: Option<DecodedRows>)
    ensures
        match decoded_batch(sql@, provider) {
            Some(d) => r matches Some(found) && found@ == d,
            None => r is None,
        },
{
    let s: Vec<char> = chars_of(sql);
    let q: char = name_mark_of(provider);
    let head: Vec<char> = chars_of("INSERT INTO ");
    let open: Vec<char> = chars_of(" (");
    let middle: Vec<char> = chars_of(" VALUES ");
    if !word_at(&s, 0, &head) {
        return None;
    }
    let (table, e1) = match read_quoted(&s, head.len(), q, false) {
        Some(x) => x,
        None => {
            return None;
        },
    };
    if !word_at(&s, e1, &open) {
        return None;
    }
    let (columns, e2) = match read_names(&s, e1 + open.len(), q) {
        Some(x) => x,
        None => {
            return None;
        },
    };
    if !word_at(&s, e2, &middle) {
        return None;
    }
    let (rows, e3) = match read_rows(&s, e2 + middle.len(), provider) {
        Some(x) => x,
        None => {
            return None;
        },
    };
    if e3 != s.len() {
        return None;
    }
    Some(DecodedRows { table: string_of(&table), columns, rows })
}

/// The rows that one statement of an export holds: none for a statement
/// that creates a table, which is not read beyond its first words; else
/// the rows of a statement that inserts one row or more.
pub open spec fn rows_in(s: Seq<char>, p: SqlProvider) -> Option<Seq<Seq<ValueView>>> {
    if has_at(s, 0, "CREATE TABLE "@) {
        Some(Seq::<Seq<ValueView>>::empty())
    } else {
        match decoded_batch(s, p) {
            Some(d) => Some(d.2),
            None => None,
        }
    }
}

/// The rows that a list of statements holds, one statement after the
/// other, if each is a statement of an export.
pub open spec fn decoded_rows(statements: Seq<Seq<char>>, p: SqlProvider) -> Option<
    Seq<Seq<ValueView>>,
>
    decreases statements.len(),
{
    if statements.len() == 0 {
        Some(Seq::<Seq<ValueView>>::empty())
    } else {
        match (decoded_rows(statements.drop_last(), p), rows_in(statements.last(), p)) {
            (Some(before), Some(rows)) => Some(before + rows),
            _ => None,
        }
    }
}

/// Reads the rows of one statement of an export in the dialect `provider`:
/// none for a statement that creates a table, else the rows of a statement
/// that inserts one row or more.
pub fn statement_rows(sql: &str, provider: SqlProvider) -> (r: Option<Vec<Vec<Value>>>)
    ensures
        match rows_in(sql@, provider) {
            Some(rows) => r matches Some(found) && rows_view(found@) == rows,
            None => r is None,
        },
{
    let s: Vec<char> = chars_of(sql);
    let create: Vec<char> = chars_of("CREATE TABLE ");
    if word_at(&s, 0, &create) {
        let none: Vec<Vec<Value>> = Vec::new();
        assert(rows_view(none@) =~= Seq::<Seq<ValueView>>::empty());
        return Some(none);
    }
    match decode_batch(sql, provider) {
        Some(found) => Some(found.rows),
        None => None,
    }
}

/// Reads the rows of the statements that the export writes for one table
/// in the dialect `provider`.
pub fn decode_rows(statements: &Vec<String>, provider: SqlProvider) -> (r: Option<Vec<Vec<Value>>>)
    ensures
        match decoded_rows(texts(statements@), provider) {
            Some(rows) => r matches Some(found) && rows_view(found@) == rows,
            None => r is None,
        },
{
    let ghost all = texts(statements@);
    let mut out: Vec<Vec<Value>> = Vec::new();
    let mut i: usize = 0;
    assert(all.take(0) =~= Seq::<Seq<char>>::empty());
    assert(rows_view(out@) =~= Seq::<Seq<ValueView>>::empty());
    while i < statements.len()
        invariant
            i <= statements@.len(),
            all == texts(statements@),
            decoded_rows(all.take(i as int), provider) == Some(rows_view(out@)),
        decreases statements.len() - i,
    {
        let ghost before = rows_view(out@);
        proof {
            assert(all.take(i + 1).drop_last() =~= all.take(i as int));
            assert(all.take(i + 1).last() == statements@[i as int]@);
        }
        match statement_rows(statements[i].as_str(), provider) {
            Some(found) => {
                let mut rows: Vec<Vec<Value>> = found;
                let ghost added = rows_view(rows@);
                out.append(&mut rows);
                assert(rows_view(out@) =~= before + added);
            },
            None => {
                proof {
                    lemma_decoded_rows_fail(all, i as int, provider);
                }
                return None;
            },
        }
        i += 1;
    }
    assert(all.take(statements@.len() as int) =~= all);
    Some(out)
}

/// A list with a statement that is not read is not read.
proof fn lemma_decoded_rows_fail(statements: Seq<Seq<char>>, i: int, p: SqlProvider)
    requires
        0 <= i < statements.len(),
        rows_in(statements[i], p) is None,
    ensures
        decoded_rows(statements, p) is None,
    decreases statements.len(),
{
    if i + 1 < statements.len() {
        assert(statements.drop_last()[i] == statements[i]);
        lemma_decoded_rows_fail(statements.drop_last(), i, p);
    }
}

/// The names of the columns, in order.
pub open spec fn column_names_of(cols: Seq<ColumnDef>) -> Seq<Seq<char>> {
    Seq::new(cols.len(), |j: int| cols[j].name@)
}

/// The rows of documents as their literals read back in the dialect `p`.
pub open spec fn reads_rows(docs: Seq<Seq<(Seq<char>, ValueView)>>, p: SqlProvider) -> Seq<
    Seq<ValueView>,
> {
    Seq::new(docs.len(), |k: int| reads_of(docs[k], p))
}

/// The words between the parts of a statement with several rows,
/// character by character.
proof fn lemma_batch_words()
    ensures
        " ("@.len() == 2,
        " ("@[0] == ' ',
        ") VALUES "@ == seq![')'] + " VALUES "@,
        ";"@ == seq![';'],
        "("@ == seq!['('],
        ")"@ == seq![')'],
{
    reveal_strlit(" (");
    reveal_strlit(") VALUES ");
    reveal_strlit(" VALUES ");
    reveal_strlit(";");
    reveal_strlit("(");
    reveal_strlit(")");
    assert(") VALUES "@ =~= seq![')'] + " VALUES "@);
    assert(";"@ =~= seq![';']);
    assert("("@ =~= seq!['(']);
    assert(")"@ =~= seq![')']);
}

/// The values of a document that were written in brackets read back as
/// their literals do.
proof fn lemma_scan_row(s: Seq<char>, pos: int, doc: Seq<(Seq<char>, ValueView)>, p: SqlProvider)
    requires
        all_writable(doc),
        has_at(s, pos, row_text(doc, p)),
    ensures
        row_text(doc, p).len() > 0,
        row_scanner(p)(s, pos) == Some((reads_of(doc, p), pos + row_text(doc, p).len())),
{
    lemma_batch_words();
    let lits = joined(field_literals(doc, p));
    assert(row_text(doc, p) =~= seq!['('] + (lits + seq![')']));
    lemma_has_at_split(s, pos, seq!['('], lits + seq![')']);
    lemma_scan_values(s, pos + 1, doc, p);
}

/// The rows of documents, written as a list with a semicolon after it,
/// read back as their literals do.
proof fn lemma_scan_rows(
    s: Seq<char>,
    base: int,
    docs: Seq<Seq<(Seq<char>, ValueView)>>,
    p: SqlProvider,
)
    requires
        docs.len() > 0,
        forall|k: int| 0 <= k < docs.len() ==> all_writable(#[trigger] docs[k]),
        has_at(s, base, joined(row_texts(docs, p)) + seq![';']),
    ensures
        items_from(s, base, row_scanner(p), ';', Seq::<Seq<ValueView>>::empty()) == Some(
            (reads_rows(docs, p), base + joined(row_texts(docs, p)).len() + 1),
        ),
{
    let parts = row_texts(docs, p);
    let items = reads_rows(docs, p);
    lemma_batch_words();
    assert forall|j: int| 0 <= j < parts.len() implies (#[trigger] parts[j]).len() > 0 by {
        assert(parts[j] == row_text(docs[j], p));
        assert(row_text(docs[j], p) =~= seq!['('] + (joined(field_literals(docs[j], p)) + seq![
            ')',
        ]));
    }
    assert forall|j: int, pos: int|
        0 <= j < parts.len() && #[trigger] has_at(s, pos, parts[j]) && pos + parts[j].len()
            < s.len() && (s[pos + parts[j].len()] == ',' || s[pos + parts[j].len()] == ';')
        implies row_scanner(p)(s, pos) == Some((items[j], pos + parts[j].len())) by {
        lemma_scan_row(s, pos, docs[j], p);
    }
    assert(items.take(0) =~= Seq::<Seq<ValueView>>::empty());
    lemma_items_from(s, base, parts, items, row_scanner(p), ';', 0);
}

/// The statement that the export writes for the documents of a table, all
/// in one, reads back as the table's name, the names of the columns and the
/// rows as their literals read back, if there is a document and every
/// fraction in the documents is a decimal fraction.
pub proof fn lemma_decode_batch(
    table: Seq<char>,
    cols: Seq<ColumnDef>,
    docs: Seq<Seq<(Seq<char>, ValueView)>>,
    p: SqlProvider,
)
    requires
        docs.len() > 0,
        forall|k: int| 0 <= k < docs.len() ==> all_writable(#[trigger] docs[k]),
    ensures
        decoded_batch(batch_text(table, cols, docs, p), p) == Some(
            (table, column_names_of(cols), reads_rows(docs, p)),
        ),
{
    let q = name_mark(p);
    let a = "INSERT INTO "@;
    let b = quoted_name(table, p);
    let c = " ("@;
    let d = joined(column_names(cols, p));
    let e = ") VALUES "@;
    let f = joined(row_texts(docs, p));
    let g = ";"@;
    let s = batch_text(table, cols, docs, p);
    lemma_insert_layout(s, a, b, c, d, e, f, g);
    lemma_batch_words();
    let at1 = a.len() as int;
    let at2 = at1 + b.len();
    let at3 = at2 + c.len();
    let at4 = at3 + d.len();
    let at5 = at4 + e.len();
    let at6 = at5 + f.len();
    assert(scan_quoted(s, at1, q, false) == Some((table, at2))) by {
        lemma_has_at_chars(s, at2, c);
        assert(s[at2 + 0] == c[0]);
        lemma_scan_quoted(s, at1, table, q, false);
    }
    assert(scan_items(s, at3, name_scanner(q), ')') == Some((column_names_of(cols), at4 + 1))) by {
        lemma_has_at_split(s, at4, seq![')'], " VALUES "@);
        lemma_has_at_split(s, at3, d, seq![')']);
        assert(column_names(cols, p) =~= quoted_names(column_names_of(cols), q));
        lemma_scan_quoted_names(s, at3, column_names_of(cols), q);
    }
    assert(has_at(s, at4 + 1, " VALUES "@)) by {
        lemma_has_at_split(s, at4, seq![')'], " VALUES "@);
    }
    assert(at4 + 1 + " VALUES "@.len() == at5);
    assert(items_from(s, at5, row_scanner(p), ';', Seq::<Seq<ValueView>>::empty()) == Some(
        (reads_rows(docs, p), at6 + 1),
    )) by {
        lemma_has_at_split(s, at5, f, seq![';']);
        lemma_scan_rows(s, at5, docs, p);
    }
    assert(at6 + 1 == s.len());
}

/// A statement that inserts rows is no statement that creates a table.
proof fn lemma_insert_is_no_create(s: Seq<char>, rest: Seq<char>)
    requires
        s == "INSERT INTO "@ + rest,
    ensures
        !has_at(s, 0, "CREATE TABLE "@),
{
    reveal_strlit("INSERT INTO ");
    reveal_strlit("CREATE TABLE ");
    lemma_has_at_chars(s, 0, "CREATE TABLE "@);
    if has_at(s, 0, "CREATE TABLE "@) {
        assert(s[0int + 0] == "CREATE TABLE "@[0]);
        assert(s[0] == "INSERT INTO "@[0]);
    }
}

/// The statement for all documents of a table, read as a statement of an
/// export, holds the rows of the documents.
proof fn lemma_rows_in_batch(
    table: Seq<char>,
    cols: Seq<ColumnDef>,
    docs: Seq<Seq<(Seq<char>, ValueView)>>,
    p: SqlProvider,
)
    requires
        docs.len() > 0,
        forall|k: int| 0 <= k < docs.len() ==> all_writable(#[trigger] docs[k]),
    ensures
        rows_in(batch_text(table, cols, docs, p), p) == Some(reads_rows(docs, p)),
{
    lemma_decode_batch(table, cols, docs, p);
    let rest = quoted_name(table, p) + " ("@ + joined(column_names(cols, p)) + ") VALUES "@
        + joined(row_texts(docs, p)) + ";"@;
    assert(batch_text(table, cols, docs, p) =~= "INSERT INTO "@ + rest);
    lemma_insert_is_no_create(batch_text(table, cols, docs, p), rest);
}

/// The rows of two lists of statements, one after the other, are the rows
/// of the first and then those of the second.
proof fn lemma_decoded_rows_concat(a: Seq<Seq<char>>, b: Seq<Seq<char>>, p: SqlProvider)
    ensures
        decoded_rows(a + b, p) == match (decoded_rows(a, p), decoded_rows(b, p)) {
            (Some(x), Some(y)) => Some(x + y),
            _ => None,
        },
    decreases b.len(),
{
    if b.len() == 0 {
        assert(a + b =~= a);
        if decoded_rows(a, p) is Some {
            assert(decoded_rows(a, p)->Some_0 + Seq::<Seq<ValueView>>::empty()
                =~= decoded_rows(a, p)->Some_0);
        }
    } else {
        lemma_decoded_rows_concat(a, b.drop_last(), p);
        assert((a + b).drop_last() =~= a + b.drop_last());
        assert((a + b).last() == b.last());
        match (decoded_rows(a, p), decoded_rows(b.drop_last(), p), rows_in(b.last(), p)) {
            (Some(x), Some(y), Some(z)) => {
                assert((x + y) + z =~= x + (y + z));
            },
            _ => {},
        }
    }
}

/// What was written for a list of documents reads back as the rows of the
/// documents, where each statement is the statement of one document.
proof fn lemma_decoded_rows_each(
    table: Seq<char>,
    cols: Seq<ColumnDef>,
    docs: Seq<Seq<(Seq<char>, ValueView)>>,
    p: SqlProvider,
    n: int,
)
    requires
        0 <= n <= docs.len(),
        all_documents_conform(docs, cols),
    ensures
        decoded_rows(Seq::new(n as nat, |k: int| insert_text(table, docs[k], p)), p) == Some(
            reads_rows(docs.take(n), p),
        ),
    decreases n,
{
    let statements = Seq::new(n as nat, |k: int| insert_text(table, docs[k], p));
    if n == 0 {
        assert(reads_rows(docs.take(0), p) =~= Seq::<Seq<ValueView>>::empty());
    } else {
        lemma_decoded_rows_each(table, cols, docs, p, n - 1);
        assert(statements.drop_last() =~= Seq::new(
            (n - 1) as nat,
            |k: int| insert_text(table, docs[k], p),
        ));
        let doc = docs[n - 1];
        assert(document_conforms(doc, cols));
        lemma_batch_of_one(table, cols, doc, p);
        assert forall|j: int| 0 <= j < doc.len() implies writable((#[trigger] doc[j]).1) by {
            assert(conforms_at(doc, cols, j));
        }
        assert(seq![doc][0] == doc);
        lemma_rows_in_batch(table, cols, seq![doc], p);
        assert(reads_rows(seq![doc], p) =~= seq![reads_of(doc, p)]);
        assert(reads_rows(docs.take(n), p) =~= reads_rows(docs.take(n - 1), p) + seq![
            reads_of(doc, p),
        ]);
    }
}

/// Export and import again lose nothing, for a whole table: the statements
/// that the export writes for the documents of a table, which all conform
/// to the columns, read back in the same dialect as rows that all fit the
/// columns; the documents of those rows are the documents that were
/// written, in order; and an import of those rows puts exactly these
/// documents in the table's place.
pub proof fn lemma_export_then_import_table(
    m: Map<Seq<char>, Seq<Seq<(Seq<char>, ValueView)>>>,
    table: Seq<char>,
    cols: Seq<ColumnDef>,
    docs: Seq<Seq<(Seq<char>, ValueView)>>,
    p: SqlProvider,
)
    requires
        all_documents_conform(docs, cols),
    ensures
        decoded_rows(insert_statements(table, cols, docs, p), p) == Some(reads_rows(docs, p)),
        forall|with_schema: bool|
            decoded_rows(#[trigger] export_statements(table, cols, docs, p, with_schema), p)
                == Some(reads_rows(docs, p)),
        all_rows_fit(reads_rows(docs, p), cols),
        typed_rows(reads_rows(docs, p), cols) == docs,
        imported(m, table, cols, Some(reads_rows(docs, p))) == m.insert(table_key(table), docs),
{
    let rows = reads_rows(docs, p);
    assert forall|k: int| 0 <= k < docs.len() implies row_fits(#[trigger] rows[k], cols)
        && typed_row(rows[k], cols) == docs[k] by {
        assert(document_conforms(docs[k], cols));
        lemma_export_then_import(table, docs[k], cols, p);
    }
    assert(typed_rows(rows, cols) =~= docs);
    if batches_rows(p) {
        if docs.len() > 0 {
            assert forall|k: int| 0 <= k < docs.len() implies all_writable(#[trigger] docs[k]) by {
                assert(document_conforms(docs[k], cols));
                assert forall|j: int| 0 <= j < docs[k].len() implies writable(
                    (#[trigger] docs[k][j]).1,
                ) by {
                    assert(conforms_at(docs[k], cols, j));
                }
            }
            lemma_rows_in_batch(table, cols, docs, p);
            let one = seq![batch_text(table, cols, docs, p)];
            assert(insert_statements(table, cols, docs, p) == one);
            assert(one.drop_last() =~= Seq::<Seq<char>>::empty());
            assert(decoded_rows(one.drop_last(), p) == Some(Seq::<Seq<ValueView>>::empty()));
            assert(one.last() == batch_text(table, cols, docs, p));
            assert(Seq::<Seq<ValueView>>::empty() + rows =~= rows);
        } else {
            assert(rows =~= Seq::<Seq<ValueView>>::empty());
            assert(decoded_rows(Seq::<Seq<char>>::empty(), p) == Some(
                Seq::<Seq<ValueView>>::empty(),
            ));
        }
    } else {
        lemma_decoded_rows_each(table, cols, docs, p, docs.len() as int);
        assert(docs.take(docs.len() as int) =~= docs);
        assert(insert_statements(table, cols, docs, p) =~= Seq::new(
            docs.len(),
            |k: int| insert_text(table, docs[k], p),
        ));
    }
    assert forall|with_schema: bool|
        decoded_rows(#[trigger] export_statements(table, cols, docs, p, with_schema), p) == Some(
            rows,
        ) by {
        lemma_rows_of_export(table, cols, docs, p, with_schema, rows);
    }
}

/// The statements of the export of a table hold the rows that the
/// statements which insert its documents hold: the statement that creates
/// the table holds none.
proof fn lemma_rows_of_export(
    table: Seq<char>,
    cols: Seq<ColumnDef>,
    docs: Seq<Seq<(Seq<char>, ValueView)>>,
    p: SqlProvider,
    with_schema: bool,
    rows: Seq<Seq<ValueView>>,
)
    requires
        decoded_rows(insert_statements(table, cols, docs, p), p) == Some(rows),
    ensures
        decoded_rows(export_statements(table, cols, docs, p, with_schema), p) == Some(rows),
{
    let none = Seq::<Seq<ValueView>>::empty();
    let head = if with_schema {
        seq![create_table_text(table, cols, p)]
    } else {
        Seq::<Seq<char>>::empty()
    };
    lemma_decoded_rows_concat(head, insert_statements(table, cols, docs, p), p);
    assert(decoded_rows(head, p) == Some(none)) by {
        if with_schema {
            let create = create_table_text(table, cols, p);
            lemma_create_is_create(table, cols, p);
            assert(head.drop_last() =~= Seq::<Seq<char>>::empty());
            assert(head.last() == create);
            assert(none + none =~= none);
        }
    }
    assert(none + rows =~= rows);
}

/// A statement that creates a table starts with the words that say so.
proof fn lemma_create_is_create(table: Seq<char>, cols: Seq<ColumnDef>, p: SqlProvider)
    ensures
        has_at(create_table_text(table, cols, p), 0, "CREATE TABLE "@),
{
    let create = create_table_text(table, cols, p);
    let rest = quoted_name(table, p) + " ("@ + joined(crate::codec::column_texts(cols, p))
        + crate::codec::key_clause(cols, p) + ");"@;
    assert(create =~= "CREATE TABLE "@ + rest);
    assert(has_at(create, 0, create)) by {
        assert(create.subrange(0, create.len() as int) =~= create);
    }
    lemma_has_at_split(create, 0, "CREATE TABLE "@, rest);
}

/// An import of what an export wrote gives the table back: where the rows
/// that were read for one table of an import are the rows which the
/// statements of an export hold for documents that conform to the table's
/// columns, and no later table of the import has the same key, the store
/// holds exactly these documents for the table afterwards, in order.
pub proof fn lemma_import_restores_table(
    m: Map<Seq<char>, Seq<Seq<(Seq<char>, ValueView)>>>,
    tables: Seq<TableSchema>,
    answers: Seq<Option<Vec<Vec<Value>>>>,
    n: int,
    i: int,
    docs: Seq<Seq<(Seq<char>, ValueView)>>,
    p: SqlProvider,
    with_schema: bool,
)
    requires
        0 <= i < n <= tables.len(),
        all_documents_conform(docs, tables[i].columns@),
        answer_at(answers, i) == decoded_rows(
            export_statements(tables[i].name@, tables[i].columns@, docs, p, with_schema),
            p,
        ),
        forall|j: int|
            i < j < n ==> table_key((#[trigger] tables[j]).name@) != table_key(tables[i].name@),
    ensures
        imported_all(m, tables, answers, n).dom().contains(table_key(tables[i].name@)),
        imported_all(m, tables, answers, n)[table_key(tables[i].name@)] == docs,
    decreases n,
{
    let key = table_key(tables[i].name@);
    if n == i + 1 {
        lemma_export_then_import_table(
            imported_all(m, tables, answers, i),
            tables[i].name@,
            tables[i].columns@,
            docs,
            p,
        );
    } else {
        lemma_import_restores_table(m, tables, answers, n - 1, i, docs, p, with_schema);
        assert(table_key(tables[n - 1].name@) != key);
    }
}

} // verus!
