//! Whole numbers as decimal text, and back.

use vstd::prelude::*;

verus! {

/// Whether `c` is a decimal digit.
pub open spec fn is_digit(c: char) -> bool {
    '0' <= c && c <= '9'
}

/// The digit for `d`, which is below ten.
pub open spec fn digit_char(d: nat) -> char {
    if d == 0 {
        '0'
    } else if d == 1 {
        '1'
    } else if d == 2 {
        '2'
    } else if d == 3 {
        '3'
    } else if d == 4 {
        '4'
    } else if d == 5 {
        '5'
    } else if d == 6 {
        '6'
    } else if d == 7 {
        '7'
    } else if d == 8 {
        '8'
    } else {
        '9'
    }
}

/// The number that the digit `c` stands for.
pub open spec fn digit_value(c: char) -> nat {
    if c == '1' {
        1
    } else if c == '2' {
        2
    } else if c == '3' {
        3
    } else if c == '4' {
        4
    } else if c == '5' {
        5
    } else if c == '6' {
        6
    } else if c == '7' {
        7
    } else if c == '8' {
        8
    } else if c == '9' {
        9
    } else {
        0
    }
}

/// Whether `s` holds decimal digits only.
pub open spec fn all_digits(s: Seq<char>) -> bool {
    forall|i: int| 0 <= i < s.len() ==> is_digit(#[trigger] s[i])
}

/// The decimal digits of `n`, without leading zeros.
pub open spec fn digits_of(n: nat) -> Seq<char>
    decreases n,
{
    if n < 10 {
        seq![digit_char(n)]
    } else {
        digits_of(n / 10).push(digit_char(n % 10))
    }
}

/// The number that the decimal digits `s` write.
pub open spec fn number_of(s: Seq<char>) -> nat
    decreases s.len(),
{
    if s.len() == 0 {
        0
    } else {
        number_of(s.drop_last()) * 10 + digit_value(s.last())
    }
}

/// The decimal text of `v`: its digits, after a minus sign if it is negative.
pub open spec fn int_text(v: int) -> Seq<char> {
    if v < 0 {
        seq!['-'] + digits_of((-v) as nat)
    } else {
        digits_of(v as nat)
    }
}

/// The whole number that `s` writes, if it is one or more digits with or
/// without a minus sign before them.
pub open spec fn int_of_text(s: Seq<char>) -> Option<int> {
    if s.len() > 0 && s[0] == '-' {
        if s.len() > 1 && all_digits(s.skip(1)) {
            Some(-(number_of(s.skip(1)) as int))
        } else {
            None
        }
    } else if s.len() > 0 && all_digits(s) {
        Some(number_of(s) as int)
    } else {
        None
    }
}

/// The number that `s` writes, if it is a whole number that fits 64 bits.
pub open spec fn i64_of_text(s: Seq<char>) -> Option<i64> {
    match int_of_text(s) {
        Some(v) => if i64::MIN <= v <= i64::MAX {
            Some(v as i64)
        } else {
            None
        },
        None => None,
    }
}

/// The digits of a number are digits, at least one, and write that number.
pub proof fn lemma_digits_round_trip(n: nat)
    ensures
        digits_of(n).len() > 0,
        all_digits(digits_of(n)),
        number_of(digits_of(n)) == n,
    decreases n,
{
    if n < 10 {
        assert(digits_of(n).drop_last() =~= Seq::<char>::empty());
        assert(number_of(Seq::<char>::empty()) == 0);
    } else {
        lemma_digits_round_trip(n / 10);
        assert(digits_of(n).drop_last() =~= digits_of(n / 10));
    }
}

/// The decimal text of a whole number writes that number.
pub proof fn lemma_int_text_round_trip(v: int)
    ensures
        int_of_text(int_text(v)) == Some(v),
{
    if v < 0 {
        lemma_digits_round_trip((-v) as nat);
        assert(int_text(v).skip(1) =~= digits_of((-v) as nat));
    } else {
        lemma_digits_round_trip(v as nat);
        assert(digits_of(v as nat)[0] != '-');
    }
}

/// Where the run of digits that starts at `i` ends.
pub open spec fn digits_end(s: Seq<char>, i: int) -> int
    decreases s.len() - i,
{
    if 0 <= i < s.len() && is_digit(s[i]) {
        digits_end(s, i + 1)
    } else {
        i
    }
}

/// Where the decimal fraction that starts at `i` ends, if one starts
/// there: digits, a point and digits, with or without a minus sign before
/// them.
pub open spec fn decimal_end(s: Seq<char>, i: int) -> Option<int> {
    let a = if 0 <= i < s.len() && s[i] == '-' {
        i + 1
    } else {
        i
    };
    let b = digits_end(s, a);
    let c = digits_end(s, b + 1);
    if a < b < s.len() && s[b] == '.' && b + 1 < c {
        Some(c)
    } else {
        None
    }
}

/// Whether `t` is a decimal fraction and nothing else.
pub open spec fn is_decimal(t: Seq<char>) -> bool {
    decimal_end(t, 0) == Some(t.len() as int)
}

/// The run of digits from `i` ends within `s`, holds digits only, and no
/// digit follows it.
pub proof fn lemma_digits_end(s: Seq<char>, i: int)
    requires
        0 <= i <= s.len(),
    ensures
        i <= digits_end(s, i) <= s.len(),
        forall|j: int| i <= j < digits_end(s, i) ==> is_digit(#[trigger] s[j]),
        digits_end(s, i) < s.len() ==> !is_digit(s[digits_end(s, i)]),
    decreases s.len() - i,
{
    if i < s.len() && is_digit(s[i]) {
        lemma_digits_end(s, i + 1);
    }
}

/// A run of digits from `i` up to `e`, with no digit after it, ends at `e`.
pub proof fn lemma_digits_end_is(s: Seq<char>, i: int, e: int)
    requires
        0 <= i <= e <= s.len(),
        forall|j: int| i <= j < e ==> is_digit(#[trigger] s[j]),
        e < s.len() ==> !is_digit(s[e]),
    ensures
        digits_end(s, i) == e,
    decreases e - i,
{
    if i < e {
        lemma_digits_end_is(s, i + 1, e);
    }
}

/// The decimal text of a whole number with `.0` after it is a decimal
/// fraction.
pub proof fn lemma_int_fraction_is_decimal(v: int)
    ensures
        is_decimal(int_text(v) + seq!['.', '0']),
{
    let t = int_text(v) + seq!['.', '0'];
    let n = if v < 0 {
        (-v) as nat
    } else {
        v as nat
    };
    lemma_digits_round_trip(n);
    let a: int = if v < 0 {
        1
    } else {
        0
    };
    let b = a + digits_of(n).len();
    assert(digits_of(n)[0] != '-');
    assert forall|j: int| a <= j < b implies is_digit(#[trigger] t[j]) by {
        assert(t[j] == digits_of(n)[j - a]);
    }
    assert(t[b] == '.');
    lemma_digits_end_is(t, a, b);
    assert(t[b + 1] == '0');
    lemma_digits_end_is(t, b + 1, b + 2);
}

/// Where the run of digits that starts at `i` ends.
pub fn find_digits_end(s: &Vec<char>, i: usize) -> (e: usize)
    ensures
        e == digits_end(s@, i as int),
        i <= e,
        i <= s.len() ==> e <= s.len(),
{
    if i > s.len() {
        return i;
    }
    let mut j: usize = i;
    while j < s.len() && value_for(s[j]).is_some()
        invariant
            i <= j <= s.len(),
            digits_end(s@, i as int) == digits_end(s@, j as int),
        decreases s.len() - j,
    {
        j += 1;
    }
    j
}

/// Whether `s` is a decimal fraction and nothing else.
pub fn check_decimal(s: &Vec<char>) -> (r: bool)
    ensures
        r == is_decimal(s@),
{
    let n: usize = s.len();
    let a: usize = if n > 0 && s[0] == '-' {
        1
    } else {
        0
    };
    let b: usize = find_digits_end(s, a);
    if !(a < b && b < n && s[b] == '.') {
        return false;
    }
    let c: usize = find_digits_end(s, b + 1);
    b + 1 < c && c == n
}

/// The digit for `d`.
fn digit_for(d: u64) -> (c: char)
    requires
        d < 10,
    ensures
        c == digit_char(d as nat),
{
    if d == 0 {
        '0'
    } else if d == 1 {
        '1'
    } else if d == 2 {
        '2'
    } else if d == 3 {
        '3'
    } else if d == 4 {
        '4'
    } else if d == 5 {
        '5'
    } else if d == 6 {
        '6'
    } else if d == 7 {
        '7'
    } else if d == 8 {
        '8'
    } else {
        '9'
    }
}

/// The number that `c` stands for, if it is a digit.
fn value_for(c: char) -> (r: Option<u64>)
    ensures
        r is Some == is_digit(c),
        r matches Some(d) ==> d == digit_value(c) && d < 10,
{
    if c == '0' {
        Some(0)
    } else if c == '1' {
        Some(1)
    } else if c == '2' {
        Some(2)
    } else if c == '3' {
        Some(3)
    } else if c == '4' {
        Some(4)
    } else if c == '5' {
        Some(5)
    } else if c == '6' {
        Some(6)
    } else if c == '7' {
        Some(7)
    } else if c == '8' {
        Some(8)
    } else if c == '9' {
        Some(9)
    } else {
        None
    }
}

/// Appends the decimal digits of `n` to `out`.
pub fn push_digits(out: &mut Vec<char>, n: u64)
    ensures
        final(out)@ == old(out)@ + digits_of(n as nat),
    decreases n,
{
    if n < 10 {
        out.push(digit_for(n));
        assert(final(out)@ =~= old(out)@ + digits_of(n as nat));
    } else {
        push_digits(out, n / 10);
        out.push(digit_for(n % 10));
        assert(final(out)@ =~= old(out)@ + digits_of(n as nat));
    }
}

/// Appends the decimal text of `v` to `out`.
pub fn push_int(out: &mut Vec<char>, v: i64)
    ensures
        final(out)@ == old(out)@ + int_text(v as int),
{
    if v < 0 {
        out.push('-');
        let magnitude: u64 = if v == i64::MIN {
            9223372036854775808u64
        } else {
            (-v) as u64
        };
        push_digits(out, magnitude);
        assert(final(out)@ =~= old(out)@ + int_text(v as int));
    } else {
        push_digits(out, v as u64);
    }
}

/// Reads the characters of `s` from `from` up to `to` as a whole number
/// of 64 bits: digits, with or without a minus sign before them. Positions
/// that do not lie in `s`, or lie the wrong way round, give nothing.
pub fn parse_i64(s: &Vec<char>, from: usize, to: usize) -> (r: Option<i64>)
    ensures
        r == if from <= to <= s.len() {
            i64_of_text(s@.subrange(from as int, to as int))
        } else {
            None
        },
{
    if !(from <= to && to <= s.len()) {
        return None;
    }
    let ghost t = s@.subrange(from as int, to as int);
    if from == to {
        return None;
    }
    let negative: bool = s[from] == '-';
    assert(t[0] == s@[from as int]);
    let start: usize = if negative {
        from + 1
    } else {
        from
    };
    if start == to {
        return None;
    }
    let ghost d = s@.subrange(start as int, to as int);
    assert(negative ==> d =~= t.skip(1));
    assert(!negative ==> d =~= t);
    let limit: u64 = if negative {
        9223372036854775808u64
    } else {
        9223372036854775807u64
    };
    let mut acc: u64 = 0;
    let mut overflow: bool = false;
    let mut i: usize = start;
    assert(d.take(0) =~= Seq::<char>::empty());
    while i < to
        invariant
            start <= i <= to <= s.len(),
            from <= start,
            t == s@.subrange(from as int, to as int),
            d == s@.subrange(start as int, to as int),
            negative ==> d == t.skip(1) && t[0] == '-',
            !negative ==> d == t && t[0] != '-',
            limit == if negative {
                9223372036854775808u64
            } else {
                9223372036854775807u64
            },
            all_digits(d.take(i - start)),
            !overflow ==> acc == number_of(d.take(i - start)) && acc <= limit,
            overflow ==> number_of(d.take(i - start)) > limit,
        decreases to - i,
    {
        let ghost before = d.take(i - start);
        let ghost after = d.take(i - start + 1);
        assert(after.drop_last() =~= before);
        assert(after.last() == s@[i as int]);
        match value_for(s[i]) {
            None => {
                assert(d[i - start] == s@[i as int]);
                return None;
            },
            Some(v) => {
                if !overflow {
                    if acc > (limit - v) / 10 {
                        overflow = true;
                    } else {
                        acc = acc * 10 + v;
                    }
                }
                assert forall|j: int| 0 <= j < after.len() implies is_digit(#[trigger] after[j]) by {
                    if j < before.len() {
                        assert(after[j] == before[j]);
                    }
                }
            },
        }
        i += 1;
    }
    assert(d.take(to - start) =~= d);
    if overflow {
        return None;
    }
    if negative {
        if acc == 9223372036854775808u64 {
            Some(i64::MIN)
        } else {
            Some(-(acc as i64))
        }
    } else {
        Some(acc as i64)
    }
}

} // verus!
