//! SQL literals and quoted names: how a value is written in a dialect.

use crate::document::{SqlProvider, Value, ValueView};
use crate::numeral::{int_text, push_int};
use crate::text::chars_of;
use vstd::prelude::*;

verus! {

/// The mark around a table or column name.
pub open spec fn name_mark(p: SqlProvider) -> char {
    match p {
        SqlProvider::MySql => '`',
        SqlProvider::Sqlite => '"',
    }
}

/// Whether a backslash in a text literal must be doubled.
pub open spec fn doubles_backslash(p: SqlProvider) -> bool {
    p == SqlProvider::MySql
}

/// How one character is written between marks `q`: the mark twice, the
/// backslash twice where it must be doubled, any other character as it is.
pub open spec fn escaped_char(c: char, q: char, esc: bool) -> Seq<char> {
    if c == q {
        seq![q, q]
    } else if esc && c == '\\' {
        seq!['\\', '\\']
    } else {
        seq![c]
    }
}

/// How the characters of `t` are written between marks `q`.
pub open spec fn escaped(t: Seq<char>, q: char, esc: bool) -> Seq<char>
    decreases t.len(),
{
    if t.len() == 0 {
        Seq::<char>::empty()
    } else {
        escaped(t.drop_last(), q, esc) + escaped_char(t.last(), q, esc)
    }
}

/// The text `t` between marks `q`.
pub open spec fn quoted(t: Seq<char>, q: char, esc: bool) -> Seq<char> {
    seq![q] + escaped(t, q, esc) + seq![q]
}

/// A table or column name as the dialect writes it.
pub open spec fn quoted_name(t: Seq<char>, p: SqlProvider) -> Seq<char> {
    quoted(t, name_mark(p), false)
}

/// A text as the dialect writes it.
pub open spec fn quoted_text(t: Seq<char>, p: SqlProvider) -> Seq<char> {
    quoted(t, '\'', doubles_backslash(p))
}

/// The hexadecimal digit for `d`, which is below sixteen.
pub open spec fn hex_char(d: int) -> char {
    if d == 0 {
        '0'
    } else if d == 1 {
        '1'
    } else if d == 2 {
        '2'
    } else if d == 3 {
        '3'
    } else if d == 4 {
        '4'
    } else if d == 5 {
        '5'
    } else if d == 6 {
        '6'
    } else if d == 7 {
        '7'
    } else if d == 8 {
        '8'
    } else if d == 9 {
        '9'
    } else if d == 10 {
        'A'
    } else if d == 11 {
        'B'
    } else if d == 12 {
        'C'
    } else if d == 13 {
        'D'
    } else if d == 14 {
        'E'
    } else {
        'F'
    }
}

/// The bytes of `b` as hexadecimal digits, two for each byte.
pub open spec fn hex_text(b: Seq<u8>) -> Seq<char>
    decreases b.len(),
{
    if b.len() == 0 {
        Seq::<char>::empty()
    } else {
        hex_text(b.drop_last()) + seq![hex_char(b.last() as int / 16), hex_char(b.last() as int % 16)]
    }
}

/// The literal that writes the value `v` in the dialect `p`. True and
/// false are `TRUE` and `FALSE` in MySQL, 1 and 0 in SQLite; a date and
/// time is written as a text, bytes as a hexadecimal literal.
pub open spec fn literal_text(v: ValueView, p: SqlProvider) -> Seq<char> {
    match v {
        ValueView::Null => seq!['N', 'U', 'L', 'L'],
        ValueView::Integer(i) => int_text(i as int),
        ValueView::Float(t) => t,
        ValueView::Text(t) => quoted_text(t, p),
        ValueView::Blob(b) => seq!['X', '\''] + hex_text(b) + seq!['\''],
        ValueView::Boolean(b) => match p {
            SqlProvider::MySql => if b {
                seq!['T', 'R', 'U', 'E']
            } else {
                seq!['F', 'A', 'L', 'S', 'E']
            },
            SqlProvider::Sqlite => if b {
                seq!['1']
            } else {
                seq!['0']
            },
        },
        ValueView::DateTime(t) => quoted_text(t, p),
    }
}

/// The mark around a table or column name.
pub fn name_mark_of(p: SqlProvider) -> (q: char)
    ensures
        q == name_mark(p),
{
    match p {
        SqlProvider::MySql => '`',
        SqlProvider::Sqlite => '"',
    }
}

/// Appends the characters of `word` to `out`.
pub fn push_str(out: &mut Vec<char>, word: &str)
    ensures
        final(out)@ == old(out)@ + word@,
{
    let mut chars: Vec<char> = chars_of(word);
    out.append(&mut chars);
}

/// Appends `t` between marks `q` to `out`.
pub fn push_quoted(out: &mut Vec<char>, t: &str, q: char, esc: bool)
    ensures
        final(out)@ == old(out)@ + quoted(t@, q, esc),
{
    let chars: Vec<char> = chars_of(t);
    out.push(q);
    let ghost base = out@;
    let mut i: usize = 0;
    assert(chars@.take(0) =~= Seq::<char>::empty());
    assert(out@ =~= base + escaped(chars@.take(0), q, esc));
    while i < chars.len()
        invariant
            i <= chars.len(),
            out@ == base + escaped(chars@.take(i as int), q, esc),
        decreases chars.len() - i,
    {
        let c: char = chars[i];
        let ghost before = out@;
        if c == q {
            out.push(q);
            out.push(q);
        } else if esc && c == '\\' {
            out.push('\\');
            out.push('\\');
        } else {
            out.push(c);
        }
        assert(out@ =~= before + escaped_char(c, q, esc));
        assert(chars@.take(i + 1).drop_last() =~= chars@.take(i as int));
        i += 1;
    }
    assert(chars@.take(chars.len() as int) =~= chars@);
    out.push(q);
    assert(out@ =~= old(out)@ + quoted(t@, q, esc));
}

/// The hexadecimal digit for `d`.
fn hex_for(d: u8) -> (c: char)
    requires
        d < 16,
    ensures
        c == hex_char(d as int),
{
    if d == 0 {
        '0'
    } else if d == 1 {
        '1'
    } else if d == 2 {
        '2'
    } else if d == 3 {
        '3'
    } else if d == 4 {
        '4'
    } else if d == 5 {
        '5'
    } else if d == 6 {
        '6'
    } else if d == 7 {
        '7'
    } else if d == 8 {
        '8'
    } else if d == 9 {
        '9'
    } else if d == 10 {
        'A'
    } else if d == 11 {
        'B'
    } else if d == 12 {
        'C'
    } else if d == 13 {
        'D'
    } else if d == 14 {
        'E'
    } else {
        'F'
    }
}

/// Appends the bytes of `b` as hexadecimal digits to `out`.
pub fn push_hex(out: &mut Vec<char>, b: &Vec<u8>)
    ensures
        final(out)@ == old(out)@ + hex_text(b@),
{
    let ghost base = out@;
    let mut i: usize = 0;
    assert(b@.take(0) =~= Seq::<u8>::empty());
    assert(out@ =~= base + hex_text(b@.take(0)));
    while i < b.len()
        invariant
            i <= b.len(),
            out@ == base + hex_text(b@.take(i as int)),
        decreases b.len() - i,
    {
        let x: u8 = b[i];
        let ghost before = out@;
        out.push(hex_for(x / 16));
        out.push(hex_for(x % 16));
        assert(out@ =~= before + seq![hex_char(x as int / 16), hex_char(x as int % 16)]);
        assert(b@.take(i + 1).drop_last() =~= b@.take(i as int));
        i += 1;
    }
    assert(b@.take(b.len() as int) =~= b@);
}

/// Appends the literal that writes `v` in the dialect `p` to `out`.
pub fn push_literal(out: &mut Vec<char>, v: &Value, p: SqlProvider)
    ensures
        final(out)@ == old(out)@ + literal_text(v@, p),
{
    let esc: bool = match p {
        SqlProvider::MySql => true,
        SqlProvider::Sqlite => false,
    };
    match v {
        Value::Null => {
            out.push('N');
            out.push('U');
            out.push('L');
            out.push('L');
            assert(final(out)@ =~= old(out)@ + literal_text(v@, p));
        },
        Value::Integer(i) => {
            push_int(out, *i);
        },
        Value::Float(t) => {
            push_str(out, t.as_str());
        },
        Value::Text(t) => {
            push_quoted(out, t.as_str(), '\'', esc);
        },
        Value::Blob(b) => {
            out.push('X');
            out.push('\'');
            push_hex(out, b);
            out.push('\'');
            assert(final(out)@ =~= old(out)@ + literal_text(v@, p));
        },
        Value::Boolean(b) => {
            match p {
                SqlProvider::MySql => {
                    if *b {
                        out.push('T');
                        out.push('R');
                        out.push('U');
                        out.push('E');
                    } else {
                        out.push('F');
                        out.push('A');
                        out.push('L');
                        out.push('S');
                        out.push('E');
                    }
                },
                SqlProvider::Sqlite => {
                    if *b {
                        out.push('1');
                    } else {
                        out.push('0');
                    }
                },
            }
            assert(final(out)@ =~= old(out)@ + literal_text(v@, p));
        },
        Value::DateTime(t) => {
            push_quoted(out, t.as_str(), '\'', esc);
        },
    }
}

} // verus!
