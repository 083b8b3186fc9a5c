//! Text primitives over sequences of characters: finding a pattern,
//! splitting on it, joining with it, and moving between `str`/`String`
//! and `Vec<char>`.
//!
//! `split` and `join` follow `str::split` and `[&str]::join` for a
//! non-empty pattern: occurrences are taken from left to right and do not
//! overlap, and a text without the pattern splits into itself.
use vstd::prelude::*;

verus! {

/// `p` occurs in `s` at position `j`.
pub open spec fn match_at(s: Seq<char>, j: int, p: Seq<char>) -> bool {
    &&& 0 <= j
    &&& j + p.len() <= s.len()
    &&& s.subrange(j, j + p.len()) == p
}

/// The first position `i >= start` at which `p` occurs in `s`.
pub open spec fn find_from(s: Seq<char>, p: Seq<char>, start: int) -> Option<int>
    decreases s.len() + 1 - start,
{
    if start < 0 || start + p.len() > s.len() {
        None
    } else if s.subrange(start, start + p.len()) == p {
        Some(start)
    } else {
        find_from(s, p, start + 1)
    }
}

/// The pieces of `s` from position `start` on, cut at each occurrence of `p`.
pub open spec fn split_at(s: Seq<char>, p: Seq<char>, start: int) -> Seq<Seq<char>>
    decreases s.len() + 1 - start,
{
    if p.len() == 0 || start < 0 || start > s.len() {
        seq![s.subrange(start, s.len() as int)]
    } else {
        match find_from(s, p, start) {
            Some(i) => {
                proof {
                    lemma_find_from_bounds(s, p, start);
                }
                seq![s.subrange(start, i)] + split_at(s, p, i + p.len())
            },
            None => seq![s.subrange(start, s.len() as int)],
        }
    }
}

/// `s` cut at each occurrence of `p` (as `str::split` does).
pub open spec fn split(s: Seq<char>, p: Seq<char>) -> Seq<Seq<char>> {
    split_at(s, p, 0)
}

/// The pieces put back together with `p` between each two of them
/// (as `[&str]::join` does).
pub open spec fn join(parts: Seq<Seq<char>>, p: Seq<char>) -> Seq<char>
    decreases parts.len(),
{
    if parts.len() == 0 {
        Seq::empty()
    } else if parts.len() == 1 {
        parts[0]
    } else {
        parts[0] + p + join(parts.skip(1), p)
    }
}

/// `p` occurs somewhere in `s`.
pub open spec fn contains(s: Seq<char>, p: Seq<char>) -> bool {
    find_from(s, p, 0) is Some
}

/// `s` does not hold the character `c`.
pub open spec fn free_of(s: Seq<char>, c: char) -> bool {
    forall|j: int| 0 <= j < s.len() ==> s[j] != c
}

/// The views of a vector of character vectors.
pub open spec fn views(v: Seq<Vec<char>>) -> Seq<Seq<char>> {
    v.map_values(|x: Vec<char>| x@)
}

/// The characters for which `char::is_whitespace` holds: those with the
/// Unicode `White_Space` property.
pub open spec fn is_white_space(c: char) -> bool {
    ||| ('\u{9}' <= c && c <= '\u{d}')
    ||| c == ' '
    ||| c == '\u{85}'
    ||| c == '\u{a0}'
    ||| c == '\u{1680}'
    ||| ('\u{2000}' <= c && c <= '\u{200a}')
    ||| c == '\u{2028}'
    ||| c == '\u{2029}'
    ||| c == '\u{202f}'
    ||| c == '\u{205f}'
    ||| c == '\u{3000}'
}

/// Number of leading white-space characters of `s`.
pub open spec fn leading_ws(s: Seq<char>) -> nat
    decreases s.len(),
{
    if s.len() > 0 && is_white_space(s[0]) {
        1 + leading_ws(s.skip(1))
    } else {
        0
    }
}

/// Number of trailing white-space characters of `s`.
pub open spec fn trailing_ws(s: Seq<char>) -> nat
    decreases s.len(),
{
    if s.len() > 0 && is_white_space(s.last()) {
        1 + trailing_ws(s.drop_last())
    } else {
        0
    }
}

/// `s` without white space at either end (as `str::trim` gives it).
pub open spec fn trim(s: Seq<char>) -> Seq<char> {
    let a = leading_ws(s) as int;
    if a == s.len() {
        Seq::empty()
    } else {
        s.subrange(a, s.len() - trailing_ws(s))
    }
}

/// The characters of `s` before its first space.
pub open spec fn first_word(s: Seq<char>) -> Seq<char> {
    match find_from(s, seq![' '], 0) {
        Some(i) => s.take(i),
        None => s,
    }
}

// ---------------------------------------------------------------------
// Lemmas on find_from / split_at / join
// ---------------------------------------------------------------------

pub proof fn lemma_find_from_bounds(s: Seq<char>, p: Seq<char>, start: int)
    requires
        0 <= start,
    ensures
        find_from(s, p, start) matches Some(i) ==> {
            &&& start <= i
            &&& match_at(s, i, p)
            &&& forall|j: int| start <= j < i ==> !match_at(s, j, p)
        },
        find_from(s, p, start) is None ==> forall|j: int| start <= j ==> !match_at(s, j, p),
    decreases s.len() + 1 - start,
{
    if start < 0 || start + p.len() > s.len() {
    } else if s.subrange(start, start + p.len()) == p {
    } else {
        lemma_find_from_bounds(s, p, start + 1);
    }
}

/// The first occurrence is found where there is one and none before it.
pub proof fn lemma_find_from_at(s: Seq<char>, p: Seq<char>, start: int, k: int)
    requires
        0 <= start <= k,
        match_at(s, k, p),
        forall|j: int| start <= j < k ==> !match_at(s, j, p),
    ensures
        find_from(s, p, start) == Some(k),
    decreases k - start,
{
    if start < k {
        assert(!match_at(s, start, p));
        lemma_find_from_at(s, p, start + 1, k);
    }
}

/// Without an occurrence, nothing is found.
pub proof fn lemma_find_from_none(s: Seq<char>, p: Seq<char>, start: int)
    requires
        0 <= start,
        forall|j: int| start <= j ==> !match_at(s, j, p),
    ensures
        find_from(s, p, start) is None,
    decreases s.len() + 1 - start,
{
    if start + p.len() > s.len() {
    } else {
        assert(!match_at(s, start, p));
        lemma_find_from_none(s, p, start + 1);
    }
}

/// `p` is contained in `s` exactly when it stands at some position of `s`:
/// any position, not only the start of the text or of a line.
pub proof fn lemma_contains_iff(s: Seq<char>, p: Seq<char>)
    ensures
        contains(s, p) <==> exists|j: int|
            0 <= j && j + p.len() <= s.len() && #[trigger] s.subrange(j, j + p.len()) == p,
{
    lemma_find_from_bounds(s, p, 0);
    if contains(s, p) {
        let i = find_from(s, p, 0)->0;
        assert(s.subrange(i, i + p.len()) == p);
    } else {
        assert forall|j: int| 0 <= j && j + p.len() <= s.len() implies #[trigger] s.subrange(
            j,
            j + p.len(),
        ) != p by {
            assert(!match_at(s, j, p));
        }
    }
}

/// Pieces always cover the rest of the text: joining them gives it back.
pub proof fn lemma_join_split_at(s: Seq<char>, p: Seq<char>, start: int)
    requires
        p.len() > 0,
        0 <= start <= s.len(),
    ensures
        split_at(s, p, start).len() >= 1,
        join(split_at(s, p, start), p) == s.subrange(start, s.len() as int),
    decreases s.len() + 1 - start,
{
    lemma_find_from_bounds(s, p, start);
    match find_from(s, p, start) {
        Some(i) => {
            lemma_join_split_at(s, p, i + p.len());
            let rest = split_at(s, p, i + p.len());
            let parts = seq![s.subrange(start, i)] + rest;
            assert(parts.skip(1) =~= rest);
            assert(s.subrange(start, s.len() as int) =~= s.subrange(start, i) + p + s.subrange(
                i + p.len(),
                s.len() as int,
            ));
        },
        None => {},
    }
}

/// Splitting and joining again gives the text back (`str::split` loses nothing).
pub proof fn lemma_join_split(s: Seq<char>, p: Seq<char>)
    requires
        p.len() > 0,
    ensures
        split(s, p).len() >= 1,
        join(split(s, p), p) == s,
{
    lemma_join_split_at(s, p, 0);
    assert(s.subrange(0, s.len() as int) =~= s);
}

/// Occurrences in `a + r` past `a` are those of `r`, moved by `|a|`.
pub proof fn lemma_match_shift(a: Seq<char>, r: Seq<char>, p: Seq<char>, j: int)
    requires
        0 <= j,
    ensures
        match_at(a + r, a.len() + j, p) == match_at(r, j, p),
{
    if j + p.len() <= r.len() {
        assert((a + r).subrange(a.len() + j, a.len() + j + p.len()) =~= r.subrange(j, j + p.len()));
    }
}

pub proof fn lemma_find_from_shift(a: Seq<char>, r: Seq<char>, p: Seq<char>, k: int)
    requires
        0 <= k,
    ensures
        find_from(a + r, p, a.len() + k) == (match find_from(r, p, k) {
            Some(i) => Some(a.len() + i),
            None => None,
        }),
    decreases r.len() + 1 - k,
{
    let s = a + r;
    lemma_match_shift(a, r, p, k);
    if k + p.len() > r.len() {
    } else if r.subrange(k, k + p.len()) == p {
        assert(match_at(r, k, p));
        assert(match_at(s, a.len() + k, p));
    } else {
        assert(!match_at(r, k, p));
        assert(!match_at(s, a.len() + k, p));
        lemma_find_from_shift(a, r, p, k + 1);
        assert(a.len() + k + 1 == a.len() + (k + 1));
    }
}

/// Splitting `a + r` past `a` is splitting `r`.
pub proof fn lemma_split_at_shift(a: Seq<char>, r: Seq<char>, p: Seq<char>, k: int)
    requires
        p.len() > 0,
        0 <= k <= r.len(),
    ensures
        split_at(a + r, p, a.len() + k) == split_at(r, p, k),
    decreases r.len() + 1 - k,
{
    let s = a + r;
    lemma_find_from_shift(a, r, p, k);
    lemma_find_from_bounds(r, p, k);
    match find_from(r, p, k) {
        Some(i) => {
            lemma_split_at_shift(a, r, p, i + p.len());
            assert(s.subrange(a.len() + k, a.len() + i) =~= r.subrange(k, i));
            assert(a.len() + i + p.len() == a.len() + (i + p.len()));
        },
        None => {
            assert(s.subrange(a.len() + k, s.len() as int) =~= r.subrange(k, r.len() as int));
        },
    }
}

/// A text that starts with `x + p`, where `x` does not hold the first
/// character of `p`, splits into `x` and the pieces of the rest.
pub proof fn lemma_split_first_piece(x: Seq<char>, p: Seq<char>, y: Seq<char>)
    requires
        p.len() > 0,
        free_of(x, p[0]),
    ensures
        split(x + p + y, p) == seq![x] + split(y, p),
{
    let s = x + p + y;
    assert forall|j: int| 0 <= j < x.len() implies !match_at(s, j, p) by {
        if match_at(s, j, p) {
            assert(s.subrange(j, j + p.len())[0] == s[j]);
        }
    }
    assert(s.subrange(x.len() as int, (x.len() + p.len()) as int) =~= p);
    lemma_find_from_at(s, p, 0, x.len() as int);
    assert(s.subrange(0, x.len() as int) =~= x);
    assert(s =~= (x + p) + y);
    lemma_split_at_shift(x + p, y, p, 0);
}

/// A text without the first character of `p` is one piece.
pub proof fn lemma_split_single(x: Seq<char>, p: Seq<char>)
    requires
        p.len() > 0,
        free_of(x, p[0]),
    ensures
        split(x, p) == seq![x],
{
    assert forall|j: int| 0 <= j implies !match_at(x, j, p) by {
        if match_at(x, j, p) {
            assert(x.subrange(j, j + p.len())[0] == x[j]);
        }
    }
    lemma_find_from_none(x, p, 0);
    assert(x.subrange(0, x.len() as int) =~= x);
}

/// Pieces that do not hold the first character of `p` are recovered by
/// splitting their join.
pub proof fn lemma_split_join(parts: Seq<Seq<char>>, p: Seq<char>)
    requires
        p.len() > 0,
        parts.len() >= 1,
        forall|i: int| 0 <= i < parts.len() ==> free_of(#[trigger] parts[i], p[0]),
    ensures
        split(join(parts, p), p) == parts,
    decreases parts.len(),
{
    if parts.len() == 1 {
        lemma_split_single(parts[0], p);
        assert(seq![parts[0]] =~= parts);
    } else {
        let rest = parts.skip(1);
        assert forall|i: int| 0 <= i < rest.len() implies free_of(#[trigger] rest[i], p[0]) by {
            assert(rest[i] == parts[i + 1]);
        }
        lemma_split_join(rest, p);
        lemma_split_first_piece(parts[0], p, join(rest, p));
        assert(seq![parts[0]] + rest =~= parts);
    }
}

/// The pieces of a text are parts of it: what the text does not hold, no
/// piece holds.
pub proof fn lemma_split_at_free(s: Seq<char>, p: Seq<char>, start: int, c: char)
    requires
        p.len() > 0,
        0 <= start <= s.len(),
        forall|j: int| start <= j < s.len() ==> s[j] != c,
    ensures
        forall|i: int|
            0 <= i < split_at(s, p, start).len() ==> free_of(#[trigger] split_at(s, p, start)[i], c),
    decreases s.len() + 1 - start,
{
    lemma_find_from_bounds(s, p, start);
    match find_from(s, p, start) {
        Some(i) => {
            lemma_split_at_free(s, p, i + p.len(), c);
            let first = s.subrange(start, i);
            let rest = split_at(s, p, i + p.len());
            assert forall|k: int| 0 <= k < (seq![first] + rest).len() implies free_of(
                #[trigger] (seq![first] + rest)[k],
                c,
            ) by {
                if k == 0 {
                    assert forall|j: int| 0 <= j < first.len() implies first[j] != c by {
                        assert(first[j] == s[start + j]);
                    }
                } else {
                    assert((seq![first] + rest)[k] == rest[k - 1]);
                }
            }
        },
        None => {
            let only = s.subrange(start, s.len() as int);
            assert forall|j: int| 0 <= j < only.len() implies only[j] != c by {
                assert(only[j] == s[start + j]);
            }
        },
    }
}

/// No piece of a text holds what the text does not hold.
pub proof fn lemma_split_free(s: Seq<char>, p: Seq<char>, c: char)
    requires
        p.len() > 0,
        free_of(s, c),
    ensures
        forall|i: int| 0 <= i < split(s, p).len() ==> free_of(#[trigger] split(s, p)[i], c),
{
    lemma_split_at_free(s, p, 0, c);
}

/// The pieces of a text cut at a single character do not hold it.
pub proof fn lemma_split_at_char_free(s: Seq<char>, c: char, start: int)
    requires
        0 <= start <= s.len(),
    ensures
        forall|i: int|
            0 <= i < split_at(s, seq![c], start).len() ==> free_of(
                #[trigger] split_at(s, seq![c], start)[i],
                c,
            ),
    decreases s.len() + 1 - start,
{
    let p = seq![c];
    lemma_find_from_bounds(s, p, start);
    match find_from(s, p, start) {
        Some(i) => {
            lemma_split_at_char_free(s, c, i + 1);
            let first = s.subrange(start, i);
            let rest = split_at(s, p, i + 1);
            assert forall|k: int| 0 <= k < (seq![first] + rest).len() implies free_of(
                #[trigger] (seq![first] + rest)[k],
                c,
            ) by {
                if k == 0 {
                    assert forall|j: int| 0 <= j < first.len() implies first[j] != c by {
                        assert(first[j] == s[start + j]);
                        if s[start + j] == c {
                            assert(s.subrange(start + j, start + j + 1) =~= p);
                            assert(match_at(s, start + j, p));
                        }
                    }
                } else {
                    assert((seq![first] + rest)[k] == rest[k - 1]);
                }
            }
        },
        None => {
            let only = s.subrange(start, s.len() as int);
            assert forall|j: int| 0 <= j < only.len() implies only[j] != c by {
                assert(only[j] == s[start + j]);
                if s[start + j] == c {
                    assert(s.subrange(start + j, start + j + 1) =~= p);
                    assert(match_at(s, start + j, p));
                }
            }
        },
    }
}

/// The pieces of a text cut at a single character do not hold it.
pub proof fn lemma_split_char_free(s: Seq<char>, c: char)
    ensures
        forall|i: int| 0 <= i < split(s, seq![c]).len() ==> free_of(#[trigger] split(s, seq![c])[i], c),
{
    lemma_split_at_char_free(s, c, 0);
}

/// Pieces and a separator that do not hold a character join into a text
/// that does not hold it.
pub proof fn lemma_join_free(parts: Seq<Seq<char>>, p: Seq<char>, c: char)
    requires
        free_of(p, c),
        forall|i: int| 0 <= i < parts.len() ==> free_of(#[trigger] parts[i], c),
    ensures
        free_of(join(parts, p), c),
    decreases parts.len(),
{
    if parts.len() >= 2 {
        let rest = parts.skip(1);
        assert forall|i: int| 0 <= i < rest.len() implies free_of(#[trigger] rest[i], c) by {
            assert(rest[i] == parts[i + 1]);
        }
        lemma_join_free(rest, p, c);
        let a = parts[0];
        let b = join(rest, p);
        assert(free_of(a, c));
        assert forall|j: int| 0 <= j < (a + p + b).len() implies (a + p + b)[j] != c by {
            if j < a.len() {
            } else if j < a.len() + p.len() {
                assert((a + p + b)[j] == p[j - a.len()]);
            } else {
                assert((a + p + b)[j] == b[j - a.len() - p.len()]);
            }
        }
    } else if parts.len() == 1 {
        assert(free_of(parts[0], c));
    }
}

/// Two texts that do not hold a character make one that does not.
pub proof fn lemma_free_concat(a: Seq<char>, b: Seq<char>, c: char)
    requires
        free_of(a, c),
        free_of(b, c),
    ensures
        free_of(a + b, c),
{
    assert forall|j: int| 0 <= j < (a + b).len() implies (a + b)[j] != c by {
        if j >= a.len() {
            assert((a + b)[j] == b[j - a.len()]);
        }
    }
}

/// Joining one more piece at the end.
pub proof fn lemma_join_push(parts: Seq<Seq<char>>, x: Seq<char>, p: Seq<char>)
    requires
        parts.len() >= 1,
    ensures
        join(parts.push(x), p) == join(parts, p) + p + x,
    decreases parts.len(),
{
    if parts.len() == 1 {
        let q = parts.push(x);
        assert(q.skip(1) =~= seq![x]);
        assert(join(seq![x], p) == x);
        assert(q[0] == parts[0]);
        assert(join(q, p) == q[0] + p + join(q.skip(1), p));
    } else {
        lemma_join_push(parts.skip(1), x, p);
        let q = parts.push(x);
        assert(q.skip(1) =~= parts.skip(1).push(x));
        assert(q[0] == parts[0]);
        assert(join(q, p) == q[0] + p + join(q.skip(1), p));
        assert(join(parts, p) == parts[0] + p + join(parts.skip(1), p));
        assert(join(q, p) =~= join(parts, p) + p + x);
    }
}

// ---------------------------------------------------------------------
// Executable text functions
// ---------------------------------------------------------------------

/// `String::push`. Claimed: the string gets the character at its end.
#[verifier::external_body]
fn push_char(s: &mut String, c: char)
    ensures
        final(s)@ == old(s)@.push(c),
{
    s.push(c);
}

/// `char::is_whitespace`. Claimed: it holds exactly for the characters with
/// the Unicode `White_Space` property, listed in `is_white_space`.
#[verifier::external_body]
fn char_is_whitespace(c: char) -> (r: bool)
    ensures
        r == is_white_space(c),
{
    c.is_whitespace()
}

/// The characters of a string slice.
pub fn chars_of(s: &str) -> (r: Vec<char>)
    ensures
        r@ == s@,
{
    let mut r: Vec<char> = Vec::new();
    let n: usize = s.unicode_len();
    let mut i: usize = 0;
    while i < n
        invariant
            n == s@.len(),
            i <= n,
            r@ == s@.take(i as int),
        decreases n - i,
    {
        let c = s.get_char(i);
        r.push(c);
        assert(s@.take(i + 1) =~= s@.take(i as int).push(c));
        i = i + 1;
    }
    assert(s@.take(n as int) =~= s@);
    r
}

/// A string made of the given characters.
pub fn string_of(v: &Vec<char>) -> (r: String)
    ensures
        r@ == v@,
{
    let mut r = String::new();
    let mut i: usize = 0;
    while i < v.len()
        invariant
            i <= v.len(),
            r@ == v@.take(i as int),
        decreases v.len() - i,
    {
        push_char(&mut r, v[i]);
        assert(v@.take(i + 1) =~= v@.take(i as int).push(v@[i as int]));
        i = i + 1;
    }
    assert(v@.take(v.len() as int) =~= v@);
    r
}

/// The characters of `s` from `a` up to `b`.
pub fn sub_chars(s: &Vec<char>, a: usize, b: usize) -> (r: Vec<char>)
    requires
        a <= b <= s.len(),
    ensures
        r@ == s@.subrange(a as int, b as int),
{
    let mut r: Vec<char> = Vec::new();
    let mut i: usize = a;
    while i < b
        invariant
            a <= i <= b <= s.len(),
            r@ == s@.subrange(a as int, i as int),
        decreases b - i,
    {
        r.push(s[i]);
        assert(s@.subrange(a as int, i + 1) =~= s@.subrange(a as int, i as int).push(s@[i as int]));
        i = i + 1;
    }
    r
}

/// `a` followed by `b`.
pub fn concat(a: &Vec<char>, b: &Vec<char>) -> (r: Vec<char>)
    ensures
        r@ == a@ + b@,
{
    let mut r: Vec<char> = a.clone();
    let mut i: usize = 0;
    while i < b.len()
        invariant
            i <= b.len(),
            r@ == a@ + b@.take(i as int),
        decreases b.len() - i,
    {
        r.push(b[i]);
        assert(a@ + b@.take(i + 1) =~= (a@ + b@.take(i as int)).push(b@[i as int]));
        i = i + 1;
    }
    assert(b@.take(b.len() as int) =~= b@);
    r
}

/// Whether `p` occurs in `s` at position `i`.
pub fn matches_at(s: &Vec<char>, i: usize, p: &Vec<char>) -> (r: bool)
    ensures
        r == match_at(s@, i as int, p@),
{
    if i > s.len() || p.len() > s.len() - i {
        return false;
    }
    let mut k: usize = 0;
    while k < p.len()
        invariant
            i + p.len() <= s.len(),
            k <= p.len(),
            forall|j: int| 0 <= j < k ==> s@[i + j] == p@[j],
        decreases p.len() - k,
    {
        if s[i + k] != p[k] {
            assert(s@.subrange(i as int, i + p.len())[k as int] != p@[k as int]);
            return false;
        }
        k = k + 1;
    }
    assert(s@.subrange(i as int, i + p.len()) =~= p@);
    true
}

/// The first position at or after `start` where `p` occurs in `s`.
pub fn find_chars(s: &Vec<char>, p: &Vec<char>, start: usize) -> (r: Option<usize>)
    ensures
        r matches Some(i) ==> find_from(s@, p@, start as int) == Some(i as int),
        r is None ==> find_from(s@, p@, start as int) is None,
{
    let mut i: usize = start;
    while i < s.len()
        invariant
            start <= i,
            forall|j: int| start <= j < i ==> !match_at(s@, j, p@),
        decreases s.len() - i,
    {
        if matches_at(s, i, p) {
            proof { lemma_find_from_at(s@, p@, start as int, i as int); }
            return Some(i);
        }
        i = i + 1;
    }
    if matches_at(s, i, p) {
        proof { lemma_find_from_at(s@, p@, start as int, i as int); }
        return Some(i);
    }
    proof { lemma_find_from_none(s@, p@, start as int); }
    None
}

/// Whether `p` occurs somewhere in `s`.
pub fn contains_chars(s: &Vec<char>, p: &Vec<char>) -> (r: bool)
    ensures
        r == contains(s@, p@),
{
    find_chars(s, p, 0).is_some()
}

/// Whether `s` starts with `p`.
pub fn starts_with_chars(s: &Vec<char>, p: &Vec<char>) -> (r: bool)
    ensures
        r == (p@.len() <= s@.len() && s@.take(p@.len() as int) == p@),
{
    let r = matches_at(s, 0, p);
    assert(r == (p@.len() <= s@.len() && s@.subrange(0, p@.len() as int) == p@));
    r
}

/// Whether two character vectors are equal.
pub fn chars_eq(a: &Vec<char>, b: &Vec<char>) -> (r: bool)
    ensures
        r == (a@ == b@),
{
    if a.len() != b.len() {
        return false;
    }
    let r = matches_at(a, 0, b);
    assert(a@.subrange(0, b@.len() as int) =~= a@);
    r
}

/// `s` cut at each occurrence of `p`.
pub fn split_chars(s: &Vec<char>, p: &Vec<char>) -> (r: Vec<Vec<char>>)
    requires
        p.len() > 0,
    ensures
        views(r@) == split(s@, p@),
{
    let mut parts: Vec<Vec<char>> = Vec::new();
    let mut start: usize = 0;
    let mut i: usize = 0;
    while i < s.len()
        invariant
            p@.len() > 0,
            start <= i <= s.len(),
            forall|j: int| start <= j < i ==> !match_at(s@, j, p@),
            views(parts@) + split_at(s@, p@, start as int) == split(s@, p@),
        decreases s.len() - i,
    {
        if matches_at(s, i, p) {
            proof { lemma_find_from_at(s@, p@, start as int, i as int); }
            let piece = sub_chars(s, start, i);
            let ghost old_parts = parts@;
            parts.push(piece);
            assert(views(parts@) =~= views(old_parts).push(piece@));
            assert(split_at(s@, p@, start as int) == seq![piece@] + split_at(
                s@,
                p@,
                i + p.len(),
            ));
            assert(views(parts@) + split_at(s@, p@, i + p.len()) =~= views(old_parts)
                + split_at(s@, p@, start as int));
            i = i + p.len();
            start = i;
        } else {
            i = i + 1;
        }
    }
    assert forall|j: int| start <= j implies !match_at(s@, j, p@) by {
        if j >= i {
            assert(!match_at(s@, j, p@));
        }
    }
    proof { lemma_find_from_none(s@, p@, start as int); }
    let piece = sub_chars(s, start, s.len());
    let ghost old_parts = parts@;
    parts.push(piece);
    assert(views(parts@) =~= views(old_parts).push(piece@));
    assert(split_at(s@, p@, start as int) =~= seq![piece@]);
    assert(views(parts@) =~= views(old_parts) + split_at(s@, p@, start as int));
    parts
}

/// The pieces put together with `p` between each two of them.
pub fn join_chars(parts: &Vec<Vec<char>>, p: &Vec<char>) -> (r: Vec<char>)
    ensures
        r@ == join(views(parts@), p@),
{
    if parts.len() == 0 {
        return Vec::new();
    }
    let mut r: Vec<char> = parts[0].clone();
    let mut k: usize = 1;
    assert(views(parts@).take(1) =~= seq![parts@[0]@]);
    while k < parts.len()
        invariant
            1 <= k <= parts.len(),
            r@ == join(views(parts@).take(k as int), p@),
        decreases parts.len() - k,
    {
        let with_sep = concat(&r, p);
        r = concat(&with_sep, &parts[k]);
        proof {
            lemma_join_push(views(parts@).take(k as int), parts@[k as int]@, p@);
            assert(views(parts@).take(k + 1) =~= views(parts@).take(k as int).push(
                parts@[k as int]@,
            ));
        }
        k = k + 1;
    }
    assert(views(parts@).take(parts.len() as int) =~= views(parts@));
    r
}

/// The number of white-space characters at the start of `s`.
fn count_leading_ws(s: &Vec<char>) -> (n: usize)
    ensures
        n == leading_ws(s@),
        n <= s.len(),
{
    let mut i: usize = 0;
    assert(s@.skip(0) =~= s@);
    while i < s.len() && char_is_whitespace(s[i])
        invariant
            i <= s.len(),
            leading_ws(s@) == i + leading_ws(s@.skip(i as int)),
        decreases s.len() - i,
    {
        assert(s@.skip(i as int).skip(1) =~= s@.skip(i + 1));
        i = i + 1;
    }
    assert(leading_ws(s@.skip(i as int)) == 0) by {
        if i < s.len() {
            assert(s@.skip(i as int)[0] == s@[i as int]);
        }
    }
    i
}

/// The number of white-space characters at the end of `s`.
fn count_trailing_ws(s: &Vec<char>) -> (n: usize)
    ensures
        n == trailing_ws(s@),
        n <= s.len(),
{
    let mut i: usize = 0;
    assert(s@.take(s.len() as int) =~= s@);
    while i < s.len() && char_is_whitespace(s[s.len() - 1 - i])
        invariant
            i <= s.len(),
            trailing_ws(s@) == i + trailing_ws(s@.take(s.len() - i)),
        decreases s.len() - i,
    {
        let ghost t = s@.take(s.len() - i);
        assert(t.last() == s@[s.len() - 1 - i]);
        assert(t.drop_last() =~= s@.take(s.len() - (i + 1)));
        i = i + 1;
    }
    assert(trailing_ws(s@.take(s.len() - i)) == 0) by {
        if i < s.len() {
            assert(s@.take(s.len() - i).last() == s@[s.len() - 1 - i]);
        }
    }
    i
}

proof fn lemma_leading_ws_shape(s: Seq<char>)
    ensures
        leading_ws(s) <= s.len(),
        forall|j: int| 0 <= j < leading_ws(s) ==> is_white_space(s[j]),
        leading_ws(s) < s.len() ==> !is_white_space(s[leading_ws(s) as int]),
    decreases s.len(),
{
    if s.len() > 0 && is_white_space(s[0]) {
        lemma_leading_ws_shape(s.skip(1));
        assert forall|j: int| 0 <= j < leading_ws(s) implies is_white_space(s[j]) by {
            if j > 0 {
                assert(s[j] == s.skip(1)[j - 1]);
            }
        }
        if leading_ws(s) < s.len() {
            assert(s[leading_ws(s) as int] == s.skip(1)[leading_ws(s.skip(1)) as int]);
        }
    }
}

proof fn lemma_trailing_ws_shape(s: Seq<char>)
    ensures
        trailing_ws(s) <= s.len(),
        forall|j: int| s.len() - trailing_ws(s) <= j < s.len() ==> is_white_space(s[j]),
        trailing_ws(s) < s.len() ==> !is_white_space(s[s.len() - 1 - trailing_ws(s)]),
    decreases s.len(),
{
    if s.len() > 0 && is_white_space(s.last()) {
        lemma_trailing_ws_shape(s.drop_last());
        assert forall|j: int| s.len() - trailing_ws(s) <= j < s.len() implies is_white_space(
            s[j],
        ) by {
            if j < s.len() - 1 {
                assert(s[j] == s.drop_last()[j]);
            }
        }
        if trailing_ws(s) < s.len() {
            assert(s[s.len() - 1 - trailing_ws(s)] == s.drop_last()[s.drop_last().len() - 1
                - trailing_ws(s.drop_last())]);
        }
    }
}

proof fn lemma_ws_counts(s: Seq<char>)
    ensures
        leading_ws(s) < s.len() ==> leading_ws(s) + trailing_ws(s) <= s.len(),
{
    lemma_leading_ws_shape(s);
    lemma_trailing_ws_shape(s);
}

/// Trimming takes away exactly the white space at both ends: what is left
/// starts and ends with a character that is not white space, stands in the
/// text at some place with only white space before and after it, and is
/// empty only for a text of white space alone.
pub proof fn lemma_trim_shape(s: Seq<char>)
    ensures
        trim(s).len() == 0 ==> forall|j: int| 0 <= j < s.len() ==> is_white_space(#[trigger] s[j]),
        trim(s).len() > 0 ==> {
            &&& !is_white_space(trim(s)[0])
            &&& !is_white_space(trim(s).last())
            &&& exists|a: int|
                0 <= a && a + trim(s).len() <= s.len() && #[trigger] s.subrange(a, a + trim(s).len())
                    == trim(s) && (forall|j: int| 0 <= j < a ==> is_white_space(#[trigger] s[j]))
                    && (forall|j: int| a + trim(s).len() <= j < s.len() ==> is_white_space(
                    #[trigger] s[j],
                ))
        },
{
    lemma_leading_ws_shape(s);
    lemma_trailing_ws_shape(s);
    lemma_ws_counts(s);
    let a = leading_ws(s) as int;
    let t = trailing_ws(s) as int;
    if a == s.len() {
        assert(trim(s).len() == 0);
    } else {
        let r = trim(s);
        assert(r == s.subrange(a, s.len() - t));
        if r.len() == 0 {
            assert(a == s.len() - t);
            assert forall|j: int| 0 <= j < s.len() implies is_white_space(#[trigger] s[j]) by {
                if j >= a {
                    assert(s.len() - t <= j);
                }
            }
        } else {
            assert(r[0] == s[a]);
            assert(r.last() == s[s.len() - 1 - t]);
            assert(s.subrange(a, a + r.len()) == r);
        }
    }
}

/// A space put in front of a text without white space at its ends is
/// trimmed away again.
pub proof fn lemma_trim_space_prefix(v: Seq<char>)
    requires
        trim(v) == v,
    ensures
        trim(seq![' '] + v) == v,
{
    let s = seq![' '] + v;
    assert(s.skip(1) =~= v);
    assert(is_white_space(s[0]));
    assert(leading_ws(s) == 1 + leading_ws(v));
    if v.len() == 0 {
        assert(leading_ws(v) == 0);
    } else {
        lemma_ws_counts(v);
        lemma_leading_ws_shape(v);
        let a = leading_ws(v) as int;
        let t = trailing_ws(v) as int;
        if a == v.len() {
            assert(trim(v).len() == 0);
        }
        assert(a < v.len());
        assert(trim(v).len() == v.len() - t - a);
        assert(a == 0 && t == 0);
        assert(s.last() == v.last());
        assert(!is_white_space(v.last()));
        assert(trailing_ws(s) == 0);
        assert(trim(s) =~= v);
    }
}

/// `s` without white space at either end.
pub fn trim_chars(s: &Vec<char>) -> (r: Vec<char>)
    ensures
        r@ == trim(s@),
{
    let a = count_leading_ws(s);
    if a == s.len() {
        return Vec::new();
    }
    let b = count_trailing_ws(s);
    proof {
        lemma_ws_counts(s@);
    }
    sub_chars(s, a, s.len() - b)
}

/// The characters of `s` before its first space.
pub fn first_word_chars(s: &Vec<char>) -> (r: Vec<char>)
    ensures
        r@ == first_word(s@),
{
    let space: Vec<char> = vec![' '];
    assert(space@ =~= seq![' ']);
    match find_chars(s, &space, 0) {
        Some(i) => {
            proof {
                lemma_find_from_bounds(s@, seq![' '], 0);
            }
            sub_chars(s, 0, i)
        },
        None => s.clone(),
    }
}

} // verus!
