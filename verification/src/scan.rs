//! Reading SQL literals and quoted names back from text.

use crate::document::{SqlProvider, Value, ValueView};
use crate::literal::{
    doubles_backslash, escaped, escaped_char, hex_char, hex_text, literal_text, quoted,
};
use crate::numeral::{
    digits_end, digits_of, find_digits_end, i64_of_text, int_text, is_decimal, is_digit,
    lemma_digits_end, lemma_digits_end_is, lemma_digits_round_trip, lemma_int_text_round_trip,
    parse_i64,
};
use crate::text::string_of;
use vstd::prelude::*;

verus! {

/// Whether the text `w` stands in `s` at position `i`.
pub open spec fn has_at(s: Seq<char>, i: int, w: Seq<char>) -> bool {
    0 <= i && i + w.len() <= s.len() && s.subrange(i, i + w.len()) == w
}

/// A text stands at a position exactly when its characters do, one by one.
pub proof fn lemma_has_at_chars(s: Seq<char>, i: int, w: Seq<char>)
    ensures
        has_at(s, i, w) <==> (0 <= i && i + w.len() <= s.len() && forall|j: int|
            0 <= j < w.len() ==> s[i + j] == #[trigger] w[j]),
{
    if 0 <= i && i + w.len() <= s.len() {
        let sub = s.subrange(i, i + w.len());
        if sub == w {
            assert forall|j: int| 0 <= j < w.len() implies s[i + j] == #[trigger] w[j] by {
                assert(sub[j] == s[i + j]);
            }
        }
        if forall|j: int| 0 <= j < w.len() ==> s[i + j] == #[trigger] w[j] {
            assert(sub =~= w);
        }
    }
}

/// Two texts stand one after the other exactly when their concatenation
/// stands there.
pub proof fn lemma_has_at_split(s: Seq<char>, i: int, a: Seq<char>, b: Seq<char>)
    ensures
        has_at(s, i, a + b) <==> has_at(s, i, a) && has_at(s, i + a.len(), b),
{
    lemma_has_at_chars(s, i, a + b);
    lemma_has_at_chars(s, i, a);
    lemma_has_at_chars(s, i + a.len(), b);
    if has_at(s, i, a + b) {
        assert forall|j: int| 0 <= j < a.len() implies s[i + j] == #[trigger] a[j] by {
            assert((a + b)[j] == a[j]);
        }
        assert forall|j: int| 0 <= j < b.len() implies s[i + a.len() + j] == #[trigger] b[j] by {
            assert((a + b)[a.len() + j] == b[j]);
        }
    }
    if has_at(s, i, a) && has_at(s, i + a.len(), b) {
        assert forall|j: int| 0 <= j < (a + b).len() implies s[i + j] == #[trigger] (a + b)[j] by {
            if j < a.len() {
                assert((a + b)[j] == a[j]);
            } else {
                assert((a + b)[j] == b[j - a.len()]);
                assert(s[i + a.len() + (j - a.len())] == b[j - a.len()]);
            }
        }
    }
}

/// Whether `s` has the text `word` at position `i`.
pub fn word_at(s: &Vec<char>, i: usize, word: &Vec<char>) -> (r: bool)
    ensures
        r == has_at(s@, i as int, word@),
{
    proof {
        lemma_has_at_chars(s@, i as int, word@);
    }
    if i > s.len() || word.len() > s.len() - i {
        return false;
    }
    let mut j: usize = 0;
    while j < word.len()
        invariant
            i <= s.len(),
            word.len() <= s.len() - i,
            j <= word.len(),
            forall|k: int| 0 <= k < j ==> s@[i + k] == #[trigger] word@[k],
        decreases word.len() - j,
    {
        if s[i + j] != word[j] {
            return false;
        }
        j += 1;
    }
    true
}

/// What stands between marks `q` from position `i` on, after `acc`, and
/// where the closing mark ends: a mark twice is one mark of the text, a
/// backslash twice is one backslash where backslashes are doubled, and a
/// backslash before anything else is not accepted there.
pub open spec fn unquoted_from(s: Seq<char>, i: int, q: char, esc: bool, acc: Seq<char>) -> Option<
    (Seq<char>, int),
>
    decreases s.len() - i,
{
    if i < 0 || i >= s.len() {
        None
    } else if s[i] == q {
        if i + 1 < s.len() && s[i + 1] == q {
            unquoted_from(s, i + 2, q, esc, acc.push(q))
        } else {
            Some((acc, i + 1))
        }
    } else if esc && s[i] == '\\' {
        if i + 1 < s.len() && s[i + 1] == '\\' {
            unquoted_from(s, i + 2, q, esc, acc.push('\\'))
        } else {
            None
        }
    } else {
        unquoted_from(s, i + 1, q, esc, acc.push(s[i]))
    }
}

/// The text between marks `q` that starts at position `i`, and where it
/// ends, if one starts there.
pub open spec fn scan_quoted(s: Seq<char>, i: int, q: char, esc: bool) -> Option<(Seq<char>, int)> {
    if 0 <= i < s.len() && s[i] == q {
        unquoted_from(s, i + 1, q, esc, Seq::<char>::empty())
    } else {
        None
    }
}

/// Reads the text between marks `q` that starts at position `i`.
pub fn read_quoted(s: &Vec<char>, i: usize, q: char, esc: bool) -> (r: Option<(Vec<char>, usize)>)
    ensures
        match scan_quoted(s@, i as int, q, esc) {
            Some((t, e)) => r matches Some(x) && x.0@ == t && x.1 == e && i < e <= s.len(),
            None => r is None,
        },
{
    if i >= s.len() || s[i] != q {
        return None;
    }
    let n: usize = s.len();
    let mut out: Vec<char> = Vec::new();
    let mut j: usize = i + 1;
    loop
        invariant
            n == s.len(),
            i < j <= n,
            unquoted_from(s@, j as int, q, esc, out@) == scan_quoted(s@, i as int, q, esc),
        decreases n - j,
    {
        if j >= n {
            return None;
        }
        let c: char = s[j];
        if c == q {
            if j + 1 < n && s[j + 1] == q {
                out.push(q);
                j += 2;
            } else {
                return Some((out, j + 1));
            }
        } else if esc && c == '\\' {
            if j + 1 < n && s[j + 1] == '\\' {
                out.push('\\');
                j += 2;
            } else {
                return None;
            }
        } else {
            out.push(c);
            j += 1;
        }
    }
}

/// What is written between marks for the beginning of a text stands at
/// the beginning of what is written for the whole text.
pub proof fn lemma_escaped_prefix(t: Seq<char>, k: int, q: char, esc: bool)
    requires
        0 <= k <= t.len(),
    ensures
        escaped(t.take(k), q, esc).is_prefix_of(escaped(t, q, esc)),
    decreases t.len() - k,
{
    if k == t.len() {
        assert(t.take(k) =~= t);
    } else {
        lemma_escaped_prefix(t, k + 1, q, esc);
        assert(t.take(k + 1).drop_last() =~= t.take(k));
    }
}

/// Reading from within a text between marks gives the whole text, where
/// what was read so far is the beginning of the text and the rest of what
/// is written for the text follows, and after it the closing mark and no
/// further mark.
proof fn lemma_unquoted_rest(s: Seq<char>, start: int, t: Seq<char>, k: int, q: char, esc: bool)
    requires
        0 <= k <= t.len(),
        has_at(s, start, escaped(t, q, esc) + seq![q]),
        start + escaped(t, q, esc).len() + 1 < s.len() ==> s[start + escaped(t, q, esc).len() + 1]
            != q,
    ensures
        unquoted_from(s, start + escaped(t.take(k), q, esc).len(), q, esc, t.take(k)) == Some(
            (t, start + escaped(t, q, esc).len() + 1),
        ),
    decreases t.len() - k,
{
    let whole = escaped(t, q, esc);
    let w = whole + seq![q];
    lemma_has_at_chars(s, start, w);
    lemma_escaped_prefix(t, k, q, esc);
    let pos = start + escaped(t.take(k), q, esc).len();
    if k == t.len() {
        assert(t.take(k) =~= t);
        assert(s[start + whole.len()] == w[whole.len() as int]);
    } else {
        let c = t[k];
        let next = t.take(k + 1);
        assert(next.drop_last() =~= t.take(k));
        assert(next.last() == c);
        assert(next =~= t.take(k).push(c));
        lemma_escaped_prefix(t, k + 1, q, esc);
        let e = escaped_char(c, q, esc);
        assert(escaped(next, q, esc) == escaped(t.take(k), q, esc) + e);
        let off = escaped(t.take(k), q, esc).len() as int;
        assert forall|j: int| 0 <= j < e.len() implies s[pos + j] == #[trigger] e[j] by {
            assert(escaped(next, q, esc)[off + j] == e[j]);
            assert(whole[off + j] == escaped(next, q, esc)[off + j]);
            assert(w[off + j] == whole[off + j]);
            assert(s[start + (off + j)] == w[off + j]);
        }
        assert(s[pos] == e[0]);
        if c == q || (esc && c == '\\') {
            assert(s[pos + 1] == e[1]);
        }
        lemma_unquoted_rest(s, start, t, k + 1, q, esc);
    }
}

/// What was written between marks for a text reads back as that text, and
/// ends where the writing ends, if no further mark follows.
pub proof fn lemma_scan_quoted(s: Seq<char>, i: int, t: Seq<char>, q: char, esc: bool)
    requires
        has_at(s, i, quoted(t, q, esc)),
        i + quoted(t, q, esc).len() < s.len() ==> s[i + quoted(t, q, esc).len()] != q,
    ensures
        scan_quoted(s, i, q, esc) == Some((t, i + quoted(t, q, esc).len())),
{
    let body = escaped(t, q, esc);
    assert(quoted(t, q, esc) =~= seq![q] + (body + seq![q]));
    lemma_has_at_split(s, i, seq![q], body + seq![q]);
    lemma_has_at_chars(s, i, seq![q]);
    assert(s[i + 0] == seq![q][0]);
    assert(t.take(0) =~= Seq::<char>::empty());
    lemma_unquoted_rest(s, i + 1, t, 0, q, esc);
}

/// The number that the hexadecimal digit `c` stands for, if it is one.
pub open spec fn hex_value(c: char) -> Option<int> {
    if c == '0' {
        Some(0)
    } else if c == '1' {
        Some(1)
    } else if c == '2' {
        Some(2)
    } else if c == '3' {
        Some(3)
    } else if c == '4' {
        Some(4)
    } else if c == '5' {
        Some(5)
    } else if c == '6' {
        Some(6)
    } else if c == '7' {
        Some(7)
    } else if c == '8' {
        Some(8)
    } else if c == '9' {
        Some(9)
    } else if c == 'A' {
        Some(10)
    } else if c == 'B' {
        Some(11)
    } else if c == 'C' {
        Some(12)
    } else if c == 'D' {
        Some(13)
    } else if c == 'E' {
        Some(14)
    } else if c == 'F' {
        Some(15)
    } else {
        None
    }
}

/// The bytes that pairs of hexadecimal digits write from position `i` on,
/// after `acc`, up to a closing mark, and where that mark ends.
pub open spec fn hex_bytes_from(s: Seq<char>, i: int, acc: Seq<u8>) -> Option<(Seq<u8>, int)>
    decreases s.len() - i,
{
    if i < 0 || i >= s.len() {
        None
    } else if s[i] == '\'' {
        Some((acc, i + 1))
    } else if i + 1 < s.len() && hex_value(s[i]) is Some && hex_value(s[i + 1]) is Some {
        hex_bytes_from(
            s,
            i + 2,
            acc.push((hex_value(s[i])->Some_0 * 16 + hex_value(s[i + 1])->Some_0) as u8),
        )
    } else {
        None
    }
}

/// The bytes of the hexadecimal literal that starts at position `i`, and
/// where it ends, if one starts there.
pub open spec fn scan_blob(s: Seq<char>, i: int) -> Option<(Seq<u8>, int)> {
    if has_at(s, i, seq!['X', '\'']) {
        hex_bytes_from(s, i + 2, Seq::<u8>::empty())
    } else {
        None
    }
}

/// The number that the hexadecimal digit `c` stands for, if it is one.
fn hex_value_of(c: char) -> (r: Option<u8>)
    ensures
        match hex_value(c) {
            Some(d) => r == Some(d as u8) && 0 <= d < 16,
            None => r is None,
        },
{
    if c == '0' {
        Some(0)
    } else if c == '1' {
        Some(1)
    } else if c == '2' {
        Some(2)
    } else if c == '3' {
        Some(3)
    } else if c == '4' {
        Some(4)
    } else if c == '5' {
        Some(5)
    } else if c == '6' {
        Some(6)
    } else if c == '7' {
        Some(7)
    } else if c == '8' {
        Some(8)
    } else if c == '9' {
        Some(9)
    } else if c == 'A' {
        Some(10)
    } else if c == 'B' {
        Some(11)
    } else if c == 'C' {
        Some(12)
    } else if c == 'D' {
        Some(13)
    } else if c == 'E' {
        Some(14)
    } else if c == 'F' {
        Some(15)
    } else {
        None
    }
}

/// Reads the hexadecimal literal that starts at position `i`.
pub fn read_blob(s: &Vec<char>, i: usize) -> (r: Option<(Vec<u8>, usize)>)
    ensures
        match scan_blob(s@, i as int) {
            Some((b, e)) => r matches Some(x) && x.0@ == b && x.1 == e && i < e <= s.len(),
            None => r is None,
        },
{
    let n: usize = s.len();
    proof {
        lemma_has_at_chars(s@, i as int, seq!['X', '\'']);
    }
    if i >= n || n - i < 2 || s[i] != 'X' || s[i + 1] != '\'' {
        proof {
            if has_at(s@, i as int, seq!['X', '\'']) {
                assert(s@[i + 0] == seq!['X', '\''][0]);
                assert(s@[i + 1] == seq!['X', '\''][1]);
            }
        }
        return None;
    }
    let mut out: Vec<u8> = Vec::new();
    let mut j: usize = i + 2;
    loop
        invariant
            n == s.len(),
            i < j <= n,
            hex_bytes_from(s@, j as int, out@) == scan_blob(s@, i as int),
        decreases n - j,
    {
        if j >= n {
            return None;
        }
        if s[j] == '\'' {
            return Some((out, j + 1));
        }
        if j + 1 >= n {
            return None;
        }
        match hex_value_of(s[j]) {
            Some(h) => match hex_value_of(s[j + 1]) {
                Some(l) => {
                    out.push(h * 16 + l);
                    j += 2;
                },
                None => {
                    return None;
                },
            },
            None => {
                return None;
            },
        }
    }
}

/// Reading from within a hexadecimal literal gives all its bytes, where
/// what was read so far is the beginning of the bytes and the rest of
/// their digits follows, and after it the closing mark.
proof fn lemma_hex_rest(s: Seq<char>, start: int, b: Seq<u8>, k: int)
    requires
        0 <= k <= b.len(),
        has_at(s, start, hex_text(b) + seq!['\'']),
    ensures
        hex_text(b.take(k)).len() == 2 * k,
        hex_bytes_from(s, start + 2 * k, b.take(k)) == Some((b, start + 2 * b.len() + 1)),
    decreases b.len() - k,
{
    let w = hex_text(b) + seq!['\''];
    lemma_has_at_chars(s, start, w);
    lemma_hex_prefix(b, k);
    lemma_hex_prefix(b, b.len() as int);
    assert(b.take(b.len() as int) =~= b);
    if k == b.len() {
        assert(b.take(k) =~= b);
        assert(s[start + 2 * k] == w[2 * k]);
    } else {
        let x = b[k];
        let next = b.take(k + 1);
        assert(next.drop_last() =~= b.take(k));
        assert(next.last() == x);
        assert(next =~= b.take(k).push(x));
        lemma_hex_prefix(b, k + 1);
        let hi = x as int / 16;
        let lo = x as int % 16;
        assert(hex_text(next)[2 * k] == hex_char(hi));
        assert(hex_text(next)[2 * k + 1] == hex_char(lo));
        assert(w[2 * k] == hex_text(b)[2 * k]);
        assert(w[2 * k + 1] == hex_text(b)[2 * k + 1]);
        assert(s[start + 2 * k] == w[2 * k]);
        assert(s[start + (2 * k + 1)] == w[2 * k + 1]);
        assert(hex_value(hex_char(hi)) == Some(hi));
        assert(hex_value(hex_char(lo)) == Some(lo));
        assert(hex_char(hi) != '\'');
        assert((hi * 16 + lo) as u8 == x);
        lemma_hex_rest(s, start, b, k + 1);
    }
}

/// The digits of the first bytes stand at the beginning of the digits of
/// all bytes, two for each byte.
proof fn lemma_hex_prefix(b: Seq<u8>, k: int)
    requires
        0 <= k <= b.len(),
    ensures
        hex_text(b.take(k)).len() == 2 * k,
        hex_text(b.take(k)).is_prefix_of(hex_text(b)),
    decreases b.len() - k,
{
    lemma_hex_len(b.take(k));
    if k == b.len() {
        assert(b.take(k) =~= b);
    } else {
        lemma_hex_prefix(b, k + 1);
        assert(b.take(k + 1).drop_last() =~= b.take(k));
    }
}

/// The digits of bytes are two for each byte.
proof fn lemma_hex_len(b: Seq<u8>)
    ensures
        hex_text(b).len() == 2 * b.len(),
    decreases b.len(),
{
    if b.len() > 0 {
        lemma_hex_len(b.drop_last());
    }
}

/// What was written for bytes reads back as those bytes, and ends where
/// the writing ends.
pub proof fn lemma_scan_blob(s: Seq<char>, i: int, b: Seq<u8>)
    requires
        has_at(s, i, seq!['X', '\''] + hex_text(b) + seq!['\'']),
    ensures
        scan_blob(s, i) == Some((b, i + (seq!['X', '\''] + hex_text(b) + seq!['\'']).len())),
{
    let head = seq!['X', '\''];
    assert(head + hex_text(b) + seq!['\''] =~= head + (hex_text(b) + seq!['\'']));
    lemma_has_at_split(s, i, head, hex_text(b) + seq!['\'']);
    lemma_hex_len(b);
    assert(b.take(0) =~= Seq::<u8>::empty());
    lemma_hex_rest(s, i + 2, b, 0);
}

/// The number that starts at position `i`, and where it ends, if one
/// starts there: a decimal fraction, kept as its text, where a point and
/// digits follow the first digits; else a whole number of 64 bits.
pub open spec fn scan_number(s: Seq<char>, i: int) -> Option<(ValueView, int)> {
    let a = if 0 <= i < s.len() && s[i] == '-' {
        i + 1
    } else {
        i
    };
    let b = digits_end(s, a);
    let c = digits_end(s, b + 1);
    if !(0 <= i && a < b) {
        None
    } else if b < s.len() && s[b] == '.' {
        if b + 1 < c {
            Some((ValueView::Float(s.subrange(i, c)), c))
        } else {
            None
        }
    } else {
        match i64_of_text(s.subrange(i, b)) {
            Some(v) => Some((ValueView::Integer(v), b)),
            None => None,
        }
    }
}

/// The literal that starts at position `i`, and where it ends, if one
/// starts there: a text between single marks, a hexadecimal literal,
/// `NULL`, `TRUE`, `FALSE`, or a number.
pub open spec fn scan_literal(s: Seq<char>, i: int, p: SqlProvider) -> Option<(ValueView, int)> {
    if i < 0 || i >= s.len() {
        None
    } else if s[i] == '\'' {
        match scan_quoted(s, i, '\'', doubles_backslash(p)) {
            Some((t, e)) => Some((ValueView::Text(t), e)),
            None => None,
        }
    } else if s[i] == 'X' {
        match scan_blob(s, i) {
            Some((b, e)) => Some((ValueView::Blob(b), e)),
            None => None,
        }
    } else if s[i] == 'N' {
        if has_at(s, i, seq!['N', 'U', 'L', 'L']) {
            Some((ValueView::Null, i + 4))
        } else {
            None
        }
    } else if s[i] == 'T' {
        if has_at(s, i, seq!['T', 'R', 'U', 'E']) {
            Some((ValueView::Boolean(true), i + 4))
        } else {
            None
        }
    } else if s[i] == 'F' {
        if has_at(s, i, seq!['F', 'A', 'L', 'S', 'E']) {
            Some((ValueView::Boolean(false), i + 5))
        } else {
            None
        }
    } else {
        scan_number(s, i)
    }
}

/// Reads the number that starts at position `i`.
pub fn read_number(s: &Vec<char>, i: usize) -> (r: Option<(Value, usize)>)
    ensures
        match scan_number(s@, i as int) {
            Some((v, e)) => r matches Some(x) && x.0@ == v && x.1 == e && i < e <= s.len(),
            None => r is None,
        },
{
    let n: usize = s.len();
    if i >= n {
        proof {
            lemma_digits_end(s@, n as int);
            if i > n {
                assert(digits_end(s@, i as int) == i);
            }
        }
        return None;
    }
    let a: usize = if s[i] == '-' {
        i + 1
    } else {
        i
    };
    let b: usize = find_digits_end(s, a);
    if a >= b {
        return None;
    }
    if b < n && s[b] == '.' {
        let c: usize = find_digits_end(s, b + 1);
        if b + 1 < c {
            let mut text: Vec<char> = Vec::new();
            let mut j: usize = i;
            while j < c
                invariant
                    i <= j <= c <= s.len(),
                    text@ == s@.subrange(i as int, j as int),
                decreases c - j,
            {
                text.push(s[j]);
                j += 1;
                assert(text@ =~= s@.subrange(i as int, j as int));
            }
            Some((Value::Float(string_of(&text)), c))
        } else {
            None
        }
    } else {
        match parse_i64(s, i, b) {
            Some(v) => Some((Value::Integer(v), b)),
            None => None,
        }
    }
}

/// Reads the literal that starts at position `i`, in the dialect `p`.
pub fn read_literal(s: &Vec<char>, i: usize, p: SqlProvider) -> (r: Option<(Value, usize)>)
    ensures
        match scan_literal(s@, i as int, p) {
            Some((v, e)) => r matches Some(x) && x.0@ == v && x.1 == e && i < e <= s.len(),
            None => r is None,
        },
{
    if i >= s.len() {
        return None;
    }
    let esc: bool = match p {
        SqlProvider::MySql => true,
        SqlProvider::Sqlite => false,
    };
    let c: char = s[i];
    if c == '\'' {
        match read_quoted(s, i, '\'', esc) {
            Some((t, e)) => Some((Value::Text(string_of(&t)), e)),
            None => None,
        }
    } else if c == 'X' {
        match read_blob(s, i) {
            Some((b, e)) => Some((Value::Blob(b), e)),
            None => None,
        }
    } else if c == 'N' {
        let word: Vec<char> = vec!['N', 'U', 'L', 'L'];
        assert(word@ =~= seq!['N', 'U', 'L', 'L']);
        if word_at(s, i, &word) {
            Some((Value::Null, i + 4))
        } else {
            None
        }
    } else if c == 'T' {
        let word: Vec<char> = vec!['T', 'R', 'U', 'E'];
        assert(word@ =~= seq!['T', 'R', 'U', 'E']);
        if word_at(s, i, &word) {
            Some((Value::Boolean(true), i + 4))
        } else {
            None
        }
    } else if c == 'F' {
        let word: Vec<char> = vec!['F', 'A', 'L', 'S', 'E'];
        assert(word@ =~= seq!['F', 'A', 'L', 'S', 'E']);
        if word_at(s, i, &word) {
            Some((Value::Boolean(false), i + 5))
        } else {
            None
        }
    } else {
        read_number(s, i)
    }
}

/// What a literal reads back as: a date and time as its text, and in
/// SQLite true and false as 1 and 0; any other value as itself.
pub open spec fn read_back(v: ValueView, p: SqlProvider) -> ValueView {
    match v {
        ValueView::DateTime(t) => ValueView::Text(t),
        ValueView::Boolean(b) => match p {
            SqlProvider::MySql => v,
            SqlProvider::Sqlite => ValueView::Integer(
                if b {
                    1i64
                } else {
                    0i64
                },
            ),
        },
        _ => v,
    }
}

/// Whether the value can be written as a literal that reads back: a
/// fraction must be a decimal fraction.
pub open spec fn writable(v: ValueView) -> bool {
    match v {
        ValueView::Float(t) => is_decimal(t),
        _ => true,
    }
}

/// Whether a literal may end before the character `c`: it closes a list or
/// goes on to the next item.
pub open spec fn ends_item(c: char) -> bool {
    c == ',' || c == ')'
}

/// What was written for a whole number reads back as that number.
proof fn lemma_scan_int(s: Seq<char>, i: int, v: i64)
    requires
        has_at(s, i, int_text(v as int)),
        i + int_text(v as int).len() < s.len(),
        ends_item(s[i + int_text(v as int).len()]),
    ensures
        s[i] == '-' || is_digit(s[i]),
        scan_number(s, i) == Some((ValueView::Integer(v), i + int_text(v as int).len())),
{
    let t = int_text(v as int);
    let n: nat = if v < 0 {
        (-(v as int)) as nat
    } else {
        v as nat
    };
    lemma_has_at_chars(s, i, t);
    lemma_digits_round_trip(n);
    let d = digits_of(n);
    let a: int = if v < 0 {
        i + 1
    } else {
        i
    };
    let b = i + t.len();
    assert(t[0] == s[i + 0]);
    if v < 0 {
        assert(t[0] == '-');
    } else {
        assert(t[0] == d[0]);
        assert(is_digit(d[0]));
    }
    assert forall|j: int| a <= j < b implies is_digit(#[trigger] s[j]) by {
        assert(s[i + (j - i)] == t[j - i]);
        assert(t[j - i] == d[j - a]);
    }
    lemma_digits_end_is(s, a, b);
    lemma_int_text_round_trip(v as int);
    assert(s.subrange(i, b) == t);
}

/// What was written for a decimal fraction reads back as its text.
proof fn lemma_scan_decimal(s: Seq<char>, i: int, t: Seq<char>)
    requires
        has_at(s, i, t),
        is_decimal(t),
        i + t.len() < s.len(),
        ends_item(s[i + t.len()]),
    ensures
        s[i] == '-' || is_digit(s[i]),
        scan_number(s, i) == Some((ValueView::Float(t), i + t.len())),
{
    lemma_has_at_chars(s, i, t);
    let at: int = if 0 < t.len() && t[0] == '-' {
        1
    } else {
        0
    };
    let bt = digits_end(t, at);
    let ct = digits_end(t, bt + 1);
    lemma_digits_end(t, at);
    lemma_digits_end(t, bt + 1);
    assert(t[0] == s[i + 0]);
    if at == 0 {
        assert(is_digit(t[0]));
    }
    assert forall|j: int| i + at <= j < i + bt implies is_digit(#[trigger] s[j]) by {
        assert(s[i + (j - i)] == t[j - i]);
    }
    assert(s[i + bt] == t[bt]);
    lemma_digits_end_is(s, i + at, i + bt);
    assert forall|j: int| i + bt + 1 <= j < i + ct implies is_digit(#[trigger] s[j]) by {
        assert(s[i + (j - i)] == t[j - i]);
    }
    lemma_digits_end_is(s, i + bt + 1, i + ct);
    assert(s.subrange(i, i + t.len()) == t);
}

/// What was written for a value reads back as that value, and ends where
/// the writing ends, if the writing is followed by the end of an item.
pub proof fn lemma_scan_literal(s: Seq<char>, i: int, v: ValueView, p: SqlProvider)
    requires
        writable(v),
        has_at(s, i, literal_text(v, p)),
        i + literal_text(v, p).len() < s.len(),
        ends_item(s[i + literal_text(v, p).len()]),
    ensures
        scan_literal(s, i, p) == Some((read_back(v, p), i + literal_text(v, p).len())),
{
    let w = literal_text(v, p);
    lemma_has_at_chars(s, i, w);
    match v {
        ValueView::Null => {
            assert(s[i + 0] == w[0]);
        },
        ValueView::Integer(x) => {
            lemma_scan_int(s, i, x);
        },
        ValueView::Float(t) => {
            lemma_scan_decimal(s, i, t);
        },
        ValueView::Text(t) => {
            assert(s[i + 0] == w[0]);
            lemma_scan_quoted(s, i, t, '\'', doubles_backslash(p));
        },
        ValueView::Blob(b) => {
            assert(s[i + 0] == w[0]);
            lemma_scan_blob(s, i, b);
        },
        ValueView::Boolean(b) => {
            match p {
                SqlProvider::MySql => {
                    assert(s[i + 0] == w[0]);
                },
                SqlProvider::Sqlite => {
                    let x: i64 = if b {
                        1
                    } else {
                        0
                    };
                    assert(int_text(x as int) =~= w) by {
                        reveal_with_fuel(digits_of, 2);
                    }
                    lemma_scan_int(s, i, x);
                },
            }
        },
        ValueView::DateTime(t) => {
            assert(s[i + 0] == w[0]);
            lemma_scan_quoted(s, i, t, '\'', doubles_backslash(p));
        },
    }
}

} // verus!
