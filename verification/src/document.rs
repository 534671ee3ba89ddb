//! Values, rows and documents, and how a raw value becomes a value of a
//! column's declared type.

use crate::numeral::{
    check_decimal, i64_of_text, int_text, is_decimal, is_digit, parse_i64, push_int,
};
use crate::schema::SqlType;
use crate::text::{chars_of, string_of};
use vstd::prelude::*;

verus! {

/// The dialect of a relational database.
#[derive(Clone, Copy, Debug, PartialEq, Eq, Structural)]
pub enum SqlProvider {
    MySql,
    Sqlite,
}

/// One value of a row or of a document. A fraction is held as its decimal
/// text, a date and time as the text `YYYY-MM-DD HH:MM:SS`.
#[derive(Debug, PartialEq, Eq)]
pub enum Value {
    Null,
    Integer(i64),
    Float(String),
    Text(String),
    Blob(Vec<u8>),
    Boolean(bool),
    DateTime(String),
}

/// A value as plain data.
pub enum ValueView {
    Null,
    Integer(i64),
    Float(Seq<char>),
    Text(Seq<char>),
    Blob(Seq<u8>),
    Boolean(bool),
    DateTime(Seq<char>),
}

impl View for Value {
    type V = ValueView;

    open spec fn view(&self) -> ValueView {
        match *self {
            Value::Null => ValueView::Null,
            Value::Integer(i) => ValueView::Integer(i),
            Value::Float(t) => ValueView::Float(t@),
            Value::Text(t) => ValueView::Text(t@),
            Value::Blob(b) => ValueView::Blob(b@),
            Value::Boolean(b) => ValueView::Boolean(b),
            Value::DateTime(t) => ValueView::DateTime(t@),
        }
    }
}

/// The values that a row holds, as plain data.
pub open spec fn row_view(row: Seq<Value>) -> Seq<ValueView> {
    Seq::new(row.len(), |i: int| row[i]@)
}

/// One field of a document: the column's name and the value.
#[derive(Debug, PartialEq, Eq)]
pub struct Field {
    pub name: String,
    pub value: Value,
}

/// One row as a document: a field for each column, in the order of the
/// columns.
#[derive(Debug, PartialEq, Eq)]
pub struct Document {
    pub fields: Vec<Field>,
}

impl View for Document {
    type V = Seq<(Seq<char>, ValueView)>;

    open spec fn view(&self) -> Seq<(Seq<char>, ValueView)> {
        Seq::new(self.fields@.len(), |i: int| (self.fields@[i].name@, self.fields@[i].value@))
    }
}

/// The documents of a table, as plain data.
pub open spec fn documents_view(docs: Seq<Document>) -> Seq<Seq<(Seq<char>, ValueView)>> {
    Seq::new(docs.len(), |i: int| docs[i]@)
}

/// What stands at position `i` of a date and time: digits, but for the
/// dashes of the date, the space, and the colons of the time.
pub open spec fn datetime_slot(i: int, c: char) -> bool {
    if i == 4 || i == 7 {
        c == '-'
    } else if i == 10 {
        c == ' '
    } else if i == 13 || i == 16 {
        c == ':'
    } else {
        is_digit(c)
    }
}

/// Whether `t` has the shape `YYYY-MM-DD HH:MM:SS`.
pub open spec fn is_datetime(t: Seq<char>) -> bool {
    t.len() == 19 && forall|i: int| 0 <= i < 19 ==> datetime_slot(i, #[trigger] t[i])
}

/// The value of the column's declared type that the value `v` stands for,
/// if it stands for one. Null stands for itself in a nullable column. A
/// value of the declared type stands for itself, a fraction and a date if
/// well formed. Beyond that: a text of digits stands for the whole number
/// it writes, a whole number for the fraction with `.0` after it, a text
/// for the fraction or the date that it writes, and 0 and 1 for false and
/// true.
pub open spec fn coerced(v: ValueView, sql_type: SqlType, nullable: bool) -> Option<ValueView> {
    match v {
        ValueView::Null => if nullable {
            Some(ValueView::Null)
        } else {
            None
        },
        _ => match sql_type {
            SqlType::Integer => match v {
                ValueView::Integer(i) => Some(v),
                ValueView::Text(t) => match i64_of_text(t) {
                    Some(i) => Some(ValueView::Integer(i)),
                    None => None,
                },
                _ => None,
            },
            SqlType::Float => match v {
                ValueView::Float(t) => if is_decimal(t) {
                    Some(v)
                } else {
                    None
                },
                ValueView::Text(t) => if is_decimal(t) {
                    Some(ValueView::Float(t))
                } else {
                    None
                },
                ValueView::Integer(i) => Some(ValueView::Float(int_text(i as int) + seq!['.', '0'])),
                _ => None,
            },
            SqlType::Text => match v {
                ValueView::Text(t) => Some(v),
                _ => None,
            },
            SqlType::Blob => match v {
                ValueView::Blob(b) => Some(v),
                _ => None,
            },
            SqlType::Boolean => match v {
                ValueView::Boolean(b) => Some(v),
                ValueView::Integer(i) => if i == 0 {
                    Some(ValueView::Boolean(false))
                } else if i == 1 {
                    Some(ValueView::Boolean(true))
                } else {
                    None
                },
                _ => None,
            },
            SqlType::DateTime => match v {
                ValueView::DateTime(t) => if is_datetime(t) {
                    Some(v)
                } else {
                    None
                },
                ValueView::Text(t) => if is_datetime(t) {
                    Some(ValueView::DateTime(t))
                } else {
                    None
                },
                _ => None,
            },
        },
    }
}

/// Whether `v` is a value of the column's declared type as it stands.
pub open spec fn conforms(v: ValueView, sql_type: SqlType, nullable: bool) -> bool {
    coerced(v, sql_type, nullable) == Some(v)
}

/// Whether `s` has the shape of a date and time.
pub fn check_datetime(s: &Vec<char>) -> (r: bool)
    ensures
        r == is_datetime(s@),
{
    if s.len() != 19 {
        return false;
    }
    let mut i: usize = 0;
    while i < 19
        invariant
            s.len() == 19,
            i <= 19,
            forall|j: int| 0 <= j < i ==> datetime_slot(j, #[trigger] s@[j]),
        decreases 19 - i,
    {
        let c: char = s[i];
        let fits: bool = if i == 4 || i == 7 {
            c == '-'
        } else if i == 10 {
            c == ' '
        } else if i == 13 || i == 16 {
            c == ':'
        } else {
            '0' <= c && c <= '9'
        };
        if !fits {
            assert(!datetime_slot(i as int, s@[i as int]));
            return false;
        }
        i += 1;
    }
    true
}

/// The value of the column's declared type that `v` stands for, if any.
pub fn coerce(v: Value, sql_type: SqlType, nullable: bool) -> (r: Option<Value>)
    ensures
        match coerced(v@, sql_type, nullable) {
            Some(w) => r matches Some(x) && x@ == w,
            None => r is None,
        },
{
    match v {
        Value::Null => if nullable {
            Some(Value::Null)
        } else {
            None
        },
        Value::Integer(i) => match sql_type {
            SqlType::Integer => Some(Value::Integer(i)),
            SqlType::Float => {
                let mut out: Vec<char> = Vec::new();
                push_int(&mut out, i);
                out.push('.');
                out.push('0');
                assert(out@ =~= int_text(i as int) + seq!['.', '0']);
                Some(Value::Float(string_of(&out)))
            },
            SqlType::Boolean => if i == 0 {
                Some(Value::Boolean(false))
            } else if i == 1 {
                Some(Value::Boolean(true))
            } else {
                None
            },
            _ => None,
        },
        Value::Float(t) => match sql_type {
            SqlType::Float => {
                let chars: Vec<char> = chars_of(t.as_str());
                if check_decimal(&chars) {
                    Some(Value::Float(t))
                } else {
                    None
                }
            },
            _ => None,
        },
        Value::Text(t) => match sql_type {
            SqlType::Text => Some(Value::Text(t)),
            SqlType::Integer => {
                let chars: Vec<char> = chars_of(t.as_str());
                assert(chars@.subrange(0, chars@.len() as int) =~= chars@);
                match parse_i64(&chars, 0, chars.len()) {
                    Some(i) => Some(Value::Integer(i)),
                    None => None,
                }
            },
            SqlType::Float => {
                let chars: Vec<char> = chars_of(t.as_str());
                if check_decimal(&chars) {
                    Some(Value::Float(t))
                } else {
                    None
                }
            },
            SqlType::DateTime => {
                let chars: Vec<char> = chars_of(t.as_str());
                if check_datetime(&chars) {
                    Some(Value::DateTime(t))
                } else {
                    None
                }
            },
            _ => None,
        },
        Value::Blob(b) => match sql_type {
            SqlType::Blob => Some(Value::Blob(b)),
            _ => None,
        },
        Value::Boolean(b) => match sql_type {
            SqlType::Boolean => Some(Value::Boolean(b)),
            _ => None,
        },
        Value::DateTime(t) => match sql_type {
            SqlType::DateTime => {
                let chars: Vec<char> = chars_of(t.as_str());
                if check_datetime(&chars) {
                    Some(Value::DateTime(t))
                } else {
                    None
                }
            },
            _ => None,
        },
    }
}

/// Coercing twice changes nothing: what a value stands for is a value of
/// the column's declared type as it stands.
pub proof fn lemma_coerced_conforms(v: ValueView, sql_type: SqlType, nullable: bool)
    requires
        coerced(v, sql_type, nullable) is Some,
    ensures
        conforms(coerced(v, sql_type, nullable)->Some_0, sql_type, nullable),
{
    match v {
        ValueView::Integer(i) => {
            if sql_type == SqlType::Float {
                crate::numeral::lemma_int_fraction_is_decimal(i as int);
            }
        },
        _ => {},
    }
}

} // verus!
