//! Text helpers: characters of a string, case folding, splitting.

use vstd::prelude::*;
use vstd::string::*;

verus! {

/// The characters of `s`, in order.
pub fn chars_of(s: &str) -> (r: Vec<char>)
    ensures
        r@ == s@,
{
    broadcast use vstd::string::group_string_axioms;

    let mut out: Vec<char> = Vec::new();
    for c in it: s.chars()
        invariant
            out@ == it.history@,
            it.seq() == s@,
    {
        out.push(c);
    }
    out
}

/// Calls `String::from_iter` of std on the characters of `chars`: the
/// string that holds them, in order.
#[verifier::external_body]
pub(crate) fn string_of(chars: &Vec<char>) -> (r: String)
    ensures
        r@ == chars@,
{
    String::from_iter(chars.iter())
}

/// Whether two texts hold the same characters.
pub fn same_text(a: &str, b: &str) -> (r: bool)
    ensures
        r == (a@ == b@),
{
    let x: String = a.to_owned();
    let y: String = b.to_owned();
    x == y
}

/// The lower-case form of a text, as Unicode defines it.
pub uninterp spec fn lowercase_of(s: Seq<char>) -> Seq<char>;

/// Calls `str::to_lowercase` of std and names what it returns: the text with
/// each character replaced by its Unicode lower-case mapping. Nothing more is
/// claimed of the result.
#[verifier::external_body]
pub(crate) fn to_lowercase(s: &str) -> (r: String)
    ensures
        r@ == lowercase_of(s@),
{
    s.to_lowercase()
}

/// The lower-case forms of `names`, in order.
pub open spec fn lowered(names: Seq<Seq<char>>) -> Seq<Seq<char>> {
    Seq::new(names.len(), |i: int| lowercase_of(names[i]))
}

/// The texts that `names` hold, in order.
pub open spec fn texts(names: Seq<String>) -> Seq<Seq<char>> {
    Seq::new(names.len(), |i: int| names[i]@)
}

/// Lower-cases every entry of `names`.
pub fn lower_all(names: &Vec<String>) -> (r: Vec<String>)
    ensures
        texts(r@) == lowered(texts(names@)),
{
    let mut out: Vec<String> = Vec::new();
    let mut i: usize = 0;
    while i < names.len()
        invariant
            i <= names.len(),
            out@.len() == i,
            forall|j: int| 0 <= j < i ==> (#[trigger] out@[j])@ == lowercase_of(names@[j]@),
        decreases names.len() - i,
    {
        out.push(to_lowercase(names[i].as_str()));
        i += 1;
    }
    assert(texts(out@) =~= lowered(texts(names@)));
    out
}

/// Whether some entry of `names` is the text `t`.
pub fn contains_text(names: &Vec<String>, t: &str) -> (r: bool)
    ensures
        r == texts(names@).contains(t@),
{
    let mut i: usize = 0;
    while i < names.len()
        invariant
            i <= names.len(),
            forall|j: int| 0 <= j < i ==> texts(names@)[j] != t@,
        decreases names.len() - i,
    {
        if same_text(names[i].as_str(), t) {
            assert(texts(names@)[i as int] == t@);
            return true;
        }
        i += 1;
    }
    false
}

/// The piece `piece` as a list: itself if it holds a character, else nothing.
pub open spec fn kept(piece: Seq<char>) -> Seq<Seq<char>> {
    if piece.len() > 0 {
        seq![piece]
    } else {
        Seq::<Seq<char>>::empty()
    }
}

/// The pieces of `piece + rest` that lie between the occurrences of `pat` in
/// `rest`, taken from the left and without overlap; `piece` is the part of
/// the first piece that was read before `rest`. Empty pieces are left out.
/// An empty `pat` occurs before and after every character.
pub open spec fn split_from(rest: Seq<char>, pat: Seq<char>, piece: Seq<char>) -> Seq<Seq<char>>
    decreases rest.len(),
{
    if rest.len() == 0 {
        kept(piece)
    } else if pat.len() == 0 {
        kept(piece) + split_from(rest.skip(1), pat, seq![rest[0]])
    } else if pat.is_prefix_of(rest) {
        kept(piece) + split_from(rest.skip(pat.len() as int), pat, Seq::<char>::empty())
    } else {
        split_from(rest.skip(1), pat, piece.push(rest[0]))
    }
}

/// The non-empty pieces of `s` between the occurrences of `pat`.
pub open spec fn split_pieces(s: Seq<char>, pat: Seq<char>) -> Seq<Seq<char>> {
    split_from(s, pat, Seq::<char>::empty())
}

/// Whether `pat` stands in `s` at position `at`.
fn occurs_at(s: &Vec<char>, pat: &Vec<char>, at: usize) -> (r: bool)
    requires
        at <= s.len(),
    ensures
        r == pat@.is_prefix_of(s@.skip(at as int)),
{
    if pat.len() > s.len() - at {
        return false;
    }
    let mut j: usize = 0;
    while j < pat.len()
        invariant
            at <= s.len(),
            pat.len() <= s.len() - at,
            j <= pat.len(),
            forall|k: int| 0 <= k < j ==> pat@[k] == s@[at + k],
        decreases pat.len() - j,
    {
        if pat[j] != s[at + j] {
            assert(s@.skip(at as int)[j as int] == s@[at + j]);
            return false;
        }
        j += 1;
    }
    assert(pat@ =~= s@.skip(at as int).subrange(0, pat@.len() as int));
    true
}

/// Splits `s` at each occurrence of `pattern` and keeps the pieces that are
/// not empty, in order.
pub fn split_string(s: String, pattern: &str) -> (r: Vec<String>)
    ensures
        texts(r@) == split_pieces(s@, pattern@),
{
    let text: &str = s.as_str();
    let sc: Vec<char> = chars_of(text);
    let pc: Vec<char> = chars_of(pattern);
    let n: usize = sc.len();
    let m: usize = pc.len();
    let mut out: Vec<String> = Vec::new();
    let mut start: usize = 0;
    let mut i: usize = 0;
    assert(texts(out@) =~= Seq::<Seq<char>>::empty());
    assert(sc@.skip(0) =~= sc@);
    assert(sc@.subrange(0, 0) =~= Seq::<char>::empty());
    while i < n
        invariant
            sc@ == s@,
            text@ == s@,
            pc@ == pattern@,
            n == sc.len(),
            m == pc.len(),
            start <= i <= n,
            split_pieces(s@, pattern@) == texts(out@) + split_from(
                sc@.skip(i as int),
                pc@,
                sc@.subrange(start as int, i as int),
            ),
        decreases n - i,
    {
        let ghost rest = sc@.skip(i as int);
        let ghost piece = sc@.subrange(start as int, i as int);
        let ghost done = texts(out@);
        let hit: bool = m == 0 || occurs_at(&sc, &pc, i);
        if hit {
            if start < i {
                out.push(text.substring_char(start, i).to_owned());
                assert(texts(out@) =~= done + kept(piece));
            } else {
                assert(texts(out@) =~= done + kept(piece));
            }
            if m == 0 {
                start = i;
                i = i + 1;
                assert(sc@.subrange(start as int, i as int) =~= seq![rest[0]]);
                assert(sc@.skip(i as int) =~= rest.skip(1));
            } else {
                i = i + m;
                start = i;
                assert(sc@.subrange(start as int, i as int) =~= Seq::<char>::empty());
                assert(sc@.skip(i as int) =~= rest.skip(m as int));
            }
        } else {
            i = i + 1;
            assert(sc@.subrange(start as int, i as int) =~= piece.push(rest[0]));
            assert(sc@.skip(i as int) =~= rest.skip(1));
        }
    }
    let ghost done = texts(out@);
    let ghost piece = sc@.subrange(start as int, n as int);
    if start < n {
        out.push(text.substring_char(start, n).to_owned());
    }
    assert(texts(out@) =~= done + kept(piece));
    out
}

} // verus!
