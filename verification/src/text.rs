//! A model of the `str` operations that the block scanners use (`char::is_whitespace`,
//! `trim`, `lines`, `starts_with`, `contains`, `find`), stated over `Seq<char>`, and
//! executable counterparts that work on a character vector and index ranges in it.

use vstd::prelude::*;

verus! {

/// `char::is_whitespace`: the Unicode `White_Space` property.
pub open spec fn is_ws(c: char) -> bool {
    ||| c == ' '
    ||| ('\t' <= c && c <= '\r')
    ||| c == '\u{85}'
    ||| c == '\u{a0}'
    ||| c == '\u{1680}'
    ||| ('\u{2000}' <= c && c <= '\u{200a}')
    ||| c == '\u{2028}'
    ||| c == '\u{2029}'
    ||| c == '\u{202f}'
    ||| c == '\u{205f}'
    ||| c == '\u{3000}'
}

/// Index of the first non-whitespace character of `t` at or after `i`.
pub open spec fn lead_end(t: Seq<char>, i: int) -> int
    decreases t.len() - i,
{
    if 0 <= i < t.len() && is_ws(t[i]) {
        lead_end(t, i + 1)
    } else {
        i
    }
}

/// Index just past the last non-whitespace character of `t[lo..j]` (at least `lo`).
pub open spec fn trail_start(t: Seq<char>, lo: int, j: int) -> int
    decreases j - lo,
{
    if lo < j && j <= t.len() && is_ws(t[j - 1]) {
        trail_start(t, lo, j - 1)
    } else {
        j
    }
}

/// `str::trim`.
pub open spec fn trim(t: Seq<char>) -> Seq<char> {
    let a = lead_end(t, 0);
    t.subrange(a, trail_start(t, a, t.len() as int))
}

/// First index `k >= i` with `t[k] == c`.
pub open spec fn find_char_from(t: Seq<char>, c: char, i: int) -> Option<int>
    decreases t.len() - i,
{
    if i < 0 || i >= t.len() {
        None
    } else if t[i] == c {
        Some(i)
    } else {
        find_char_from(t, c, i + 1)
    }
}

/// `str::find` with a `char` pattern (as a character index).
pub open spec fn find_char(t: Seq<char>, c: char) -> Option<int> {
    find_char_from(t, c, 0)
}

/// First index `k >= i` where `p` occurs in `t`.
pub open spec fn find_seq_from(t: Seq<char>, p: Seq<char>, i: int) -> Option<int>
    decreases t.len() + 1 - i,
{
    if i < 0 || i + p.len() > t.len() {
        None
    } else if t.subrange(i, i + p.len()) == p {
        Some(i)
    } else {
        find_seq_from(t, p, i + 1)
    }
}

/// `str::find` with a string pattern (as a character index).
pub open spec fn find_seq(t: Seq<char>, p: Seq<char>) -> Option<int> {
    find_seq_from(t, p, 0)
}

/// `str::contains` with a string pattern.
pub open spec fn contains_seq(t: Seq<char>, p: Seq<char>) -> bool {
    find_seq(t, p) is Some
}

/// `str::contains` with a `char` pattern.
pub open spec fn contains_char(t: Seq<char>, c: char) -> bool {
    exists|k: int| 0 <= k < t.len() && t[k] == c
}

/// `str::starts_with` with a string pattern.
pub open spec fn starts_with(t: Seq<char>, p: Seq<char>) -> bool {
    p.len() <= t.len() && t.subrange(0, p.len() as int) == p
}

/// `str::ends_with` with a `char` pattern.
pub open spec fn ends_with_char(t: Seq<char>, c: char) -> bool {
    t.len() > 0 && t.last() == c
}

/// A line as `str::lines` yields it: a trailing `'\r'` is dropped.
pub open spec fn strip_cr(l: Seq<char>) -> Seq<char> {
    if l.len() > 0 && l.last() == '\r' {
        l.drop_last()
    } else {
        l
    }
}

/// `str::lines`: split at `'\n'`, drop a `'\r'` before each `'\n'`, and yield no final
/// empty line.
pub open spec fn lines(s: Seq<char>) -> Seq<Seq<char>>
    decreases s.len(),
{
    if s.len() == 0 {
        seq![]
    } else {
        match find_char(s, '\n') {
            None => seq![s],
            Some(i) => {
                if 0 <= i < s.len() {
                    seq![strip_cr(s.subrange(0, i))] + lines(s.subrange(i + 1, s.len() as int))
                } else {
                    seq![]
                }
            },
        }
    }
}

/// `<[&str]>::join("\n")`.
pub open spec fn join_lines(p: Seq<Seq<char>>) -> Seq<char>
    decreases p.len(),
{
    if p.len() == 0 {
        seq![]
    } else if p.len() == 1 {
        p[0]
    } else {
        join_lines(p.drop_last()) + seq!['\n'] + p.last()
    }
}

/// Number of `'\n'` characters in `s`.
pub open spec fn newline_count(s: Seq<char>) -> nat
    decreases s.len(),
{
    if s.len() == 0 {
        0
    } else {
        newline_count(s.drop_last()) + if s.last() == '\n' {
            1nat
        } else {
            0nat
        }
    }
}

pub open spec fn has_no_newline(s: Seq<char>) -> bool {
    forall|k: int| 0 <= k < s.len() ==> s[k] != '\n'
}

// ---------------------------------------------------------------------------
// Lemmas
// ---------------------------------------------------------------------------

pub proof fn lemma_find_char_from(t: Seq<char>, c: char, i: int)
    requires
        0 <= i,
    ensures
        match find_char_from(t, c, i) {
            Some(k) => i <= k < t.len() && 0 <= k && t[k] == c && forall|j: int|
                i <= j < k ==> t[j] != c,
            None => forall|j: int| i <= j < t.len() ==> t[j] != c,
        },
    decreases t.len() - i,
{
    if i < 0 || i >= t.len() {
    } else if t[i] == c {
    } else {
        lemma_find_char_from(t, c, i + 1);
    }
}

pub proof fn lemma_find_char_is(t: Seq<char>, c: char, i: int, k: int)
    requires
        0 <= i <= k < t.len(),
        t[k] == c,
        forall|j: int| i <= j < k ==> t[j] != c,
    ensures
        find_char_from(t, c, i) == Some(k),
    decreases k - i,
{
    if i < k {
        lemma_find_char_is(t, c, i + 1, k);
    }
}

pub proof fn lemma_find_char_none(t: Seq<char>, c: char, i: int)
    requires
        0 <= i <= t.len(),
        forall|j: int| i <= j < t.len() ==> t[j] != c,
    ensures
        find_char_from(t, c, i) is None,
    decreases t.len() - i,
{
    if i < t.len() {
        lemma_find_char_none(t, c, i + 1);
    }
}

/// A line of `lines(s)` holds no newline, and there are at most as many lines as
/// newlines plus one.
pub proof fn lemma_lines(s: Seq<char>)
    ensures
        forall|k: int| 0 <= k < lines(s).len() ==> has_no_newline(#[trigger] lines(s)[k]),
        lines(s).len() <= newline_count(s) + 1,
        lines(s).len() <= s.len(),
    decreases s.len(),
{
    if s.len() > 0 {
        lemma_find_char_from(s, '\n', 0);
        match find_char(s, '\n') {
            None => {
                lemma_newline_count_none(s);
            },
            Some(i) => {
                let rest = s.subrange(i + 1, s.len() as int);
                lemma_lines(rest);
                let first = strip_cr(s.subrange(0, i));
                assert(has_no_newline(first));
                assert(s =~= s.subrange(0, i + 1) + rest);
                lemma_newline_count_concat(s.subrange(0, i + 1), rest);
                assert(s.subrange(0, i + 1).drop_last() =~= s.subrange(0, i));
                assert forall|k: int| 0 <= k < lines(s).len() implies has_no_newline(
                    #[trigger] lines(s)[k],
                ) by {
                    if k > 0 {
                        assert(lines(s)[k] == lines(rest)[k - 1]);
                    }
                }
            },
        }
    }
}

pub proof fn lemma_newline_count_none(s: Seq<char>)
    requires
        has_no_newline(s),
    ensures
        newline_count(s) == 0,
    decreases s.len(),
{
    if s.len() > 0 {
        lemma_newline_count_none(s.drop_last());
    }
}

pub proof fn lemma_newline_count_concat(a: Seq<char>, b: Seq<char>)
    ensures
        newline_count(a + b) == newline_count(a) + newline_count(b),
    decreases b.len(),
{
    if b.len() == 0 {
        assert(a + b =~= a);
    } else {
        lemma_newline_count_concat(a, b.drop_last());
        assert((a + b).drop_last() =~= a + b.drop_last());
    }
}

/// Joining `p.len()` newline-free pieces gives `p.len() - 1` newlines, so the joined
/// text has at most `p.len()` lines.
pub proof fn lemma_join_lines_count(p: Seq<Seq<char>>)
    requires
        forall|k: int| 0 <= k < p.len() ==> has_no_newline(#[trigger] p[k]),
    ensures
        p.len() > 0 ==> newline_count(join_lines(p)) + 1 == p.len(),
        lines(join_lines(p)).len() <= p.len(),
    decreases p.len(),
{
    if p.len() == 0 {
        lemma_lines(join_lines(p));
    } else if p.len() == 1 {
        lemma_newline_count_none(p[0]);
        lemma_lines(join_lines(p));
    } else {
        lemma_join_lines_count(p.drop_last());
        let j = join_lines(p.drop_last());
        lemma_newline_count_concat(j, seq!['\n']);
        lemma_newline_count_concat(j + seq!['\n'], p.last());
        lemma_newline_count_none(p.last());
        assert(newline_count(seq!['\n']) == 1) by {
            let nl: Seq<char> = seq!['\n'];
            assert(nl.drop_last() =~= Seq::<char>::empty());
            assert(nl.last() == '\n');
            assert(newline_count(Seq::<char>::empty()) == 0);
        }
        lemma_lines(join_lines(p));
    }
}

// ---------------------------------------------------------------------------
// Executable helpers over a character vector
// ---------------------------------------------------------------------------

pub fn is_whitespace(c: char) -> (b: bool)
    ensures
        b == is_ws(c),
{
    c == ' ' || ('\t' <= c && c <= '\r') || c == '\u{85}' || c == '\u{a0}' || c == '\u{1680}'
        || ('\u{2000}' <= c && c <= '\u{200a}') || c == '\u{2028}' || c == '\u{2029}' || c
        == '\u{202f}' || c == '\u{205f}' || c == '\u{3000}'
}

/// The characters of `s`, in order.
pub(crate) fn chars_of(s: &str) -> (v: Vec<char>)
    ensures
        v@ == s@,
{
    broadcast use vstd::string::axiom_spec_iter;

    let mut v: Vec<char> = Vec::new();
    for c in it: s.chars()
        invariant
            it.seq() == s@,
            v@ == it.seq().take(it.index() as int),
    {
        v.push(c);
    }
    v
}

/// The range `lo..hi` of `s` with leading and trailing whitespace removed.
pub fn trim_range(s: &Vec<char>, lo: usize, hi: usize) -> (r: (usize, usize))
    requires
        lo <= hi <= s.len(),
    ensures
        lo <= r.0 <= r.1 <= hi,
        s@.subrange(r.0 as int, r.1 as int) == trim(s@.subrange(lo as int, hi as int)),
{
    let ghost t = s@.subrange(lo as int, hi as int);
    let mut a = lo;
    while a < hi && is_whitespace(s[a])
        invariant
            lo <= a <= hi <= s.len(),
            t == s@.subrange(lo as int, hi as int),
            lead_end(t, a - lo) == lead_end(t, 0),
        decreases hi - a,
    {
        a = a + 1;
    }
    assert(lead_end(t, a - lo) == a - lo);
    let mut b = hi;
    while b > a && is_whitespace(s[b - 1])
        invariant
            lo <= a <= b <= hi <= s.len(),
            t == s@.subrange(lo as int, hi as int),
            lead_end(t, 0) == a - lo,
            trail_start(t, a - lo, b - lo) == trail_start(t, a - lo, t.len() as int),
        decreases b - a,
    {
        b = b - 1;
    }
    assert(trail_start(t, a - lo, b - lo) == b - lo);
    assert(s@.subrange(a as int, b as int) =~= t.subrange(a - lo, b - lo));
    (a, b)
}

/// Whether `s[lo..hi]` starts with `p`.
pub fn starts_with_at(s: &Vec<char>, lo: usize, hi: usize, p: &Vec<char>) -> (b: bool)
    requires
        lo <= hi <= s.len(),
    ensures
        b == starts_with(s@.subrange(lo as int, hi as int), p@),
{
    if p.len() > hi - lo {
        return false;
    }
    let mut k: usize = 0;
    while k < p.len()
        invariant
            lo <= hi <= s.len(),
            p.len() <= hi - lo,
            k <= p.len(),
            forall|j: int| 0 <= j < k ==> s@[lo + j] == p@[j],
        decreases p.len() - k,
    {
        if s[lo + k] != p[k] {
            assert(s@.subrange(lo as int, hi as int).subrange(0, p.len() as int)[k as int]
                != p@[k as int]);
            return false;
        }
        k = k + 1;
    }
    assert(s@.subrange(lo as int, hi as int).subrange(0, p.len() as int) =~= p@);
    true
}

/// Whether `s[lo..hi]` contains `c`.
pub fn contains_char_at(s: &Vec<char>, lo: usize, hi: usize, c: char) -> (b: bool)
    requires
        lo <= hi <= s.len(),
    ensures
        b == contains_char(s@.subrange(lo as int, hi as int), c),
{
    match find_char_at(s, lo, hi, c) {
        Some(p) => {
            proof {
                lemma_find_char_from(s@.subrange(lo as int, hi as int), c, 0);
            }
            assert(s@.subrange(lo as int, hi as int)[p - lo] == c);
            true
        },
        None => {
            proof {
                lemma_find_char_from(s@.subrange(lo as int, hi as int), c, 0);
            }
            false
        },
    }
}

/// `s[lo..hi].find(c)`, as an index into `s`.
pub fn find_char_at(s: &Vec<char>, lo: usize, hi: usize, c: char) -> (r: Option<usize>)
    requires
        lo <= hi <= s.len(),
    ensures
        match r {
            Some(p) => lo <= p < hi && find_char(s@.subrange(lo as int, hi as int), c) == Some(
                p - lo,
            ),
            None => find_char(s@.subrange(lo as int, hi as int), c) is None,
        },
{
    let ghost t = s@.subrange(lo as int, hi as int);
    let mut i = lo;
    while i < hi
        invariant
            lo <= i <= hi <= s.len(),
            t == s@.subrange(lo as int, hi as int),
            find_char_from(t, c, i - lo) == find_char_from(t, c, 0),
        decreases hi - i,
    {
        if s[i] == c {
            return Some(i);
        }
        i = i + 1;
    }
    None
}

/// `s[lo..hi].find(p)`, as an index into `s`.
pub fn find_seq_at(s: &Vec<char>, lo: usize, hi: usize, p: &Vec<char>) -> (r: Option<usize>)
    requires
        lo <= hi <= s.len(),
    ensures
        match r {
            Some(q) => lo <= q && q + p.len() <= hi && find_seq(
                s@.subrange(lo as int, hi as int),
                p@,
            ) == Some(q - lo),
            None => find_seq(s@.subrange(lo as int, hi as int), p@) is None,
        },
{
    let ghost t = s@.subrange(lo as int, hi as int);
    let mut i = lo;
    while p.len() <= hi - i
        invariant
            lo <= i <= hi,
            hi <= s.len(),
            t == s@.subrange(lo as int, hi as int),
            find_seq_from(t, p@, i - lo) == find_seq_from(t, p@, 0),
        decreases hi - i,
    {
        if starts_with_at(s, i, hi, p) {
            assert(t.subrange(i - lo, i - lo + p.len()) =~= s@.subrange(i as int, hi as int).subrange(
                0,
                p.len() as int,
            ));
            return Some(i);
        }
        assert(t.subrange(i - lo, i - lo + p.len()) =~= s@.subrange(i as int, hi as int).subrange(
            0,
            p.len() as int,
        ));
        assert(p@.len() > 0) by {
            if p@.len() == 0 {
                assert(s@.subrange(i as int, hi as int).subrange(0, 0) =~= p@);
            }
        }
        i = i + 1;
    }
    None
}

/// `s[lo..hi].contains(p)`.
pub fn contains_seq_at(s: &Vec<char>, lo: usize, hi: usize, p: &Vec<char>) -> (b: bool)
    requires
        lo <= hi <= s.len(),
    ensures
        b == contains_seq(s@.subrange(lo as int, hi as int), p@),
{
    find_seq_at(s, lo, hi, p).is_some()
}

/// The character ranges of `s.lines()`.
pub fn line_ranges(s: &Vec<char>) -> (r: Vec<(usize, usize)>)
    ensures
        r.len() == lines(s@).len(),
        forall|k: int|
            0 <= k < r.len() ==> {
                &&& (#[trigger] r@[k]).0 <= r@[k].1 <= s.len()
                &&& s@.subrange(r@[k].0 as int, r@[k].1 as int) == lines(s@)[k]
            },
{
    let n = s.len();
    let mut r: Vec<(usize, usize)> = Vec::new();
    let mut start: usize = 0;
    let mut i: usize = 0;
    let ghost done: Seq<Seq<char>> = seq![];
    assert(s@.subrange(0, n as int) =~= s@);
    assert(done + lines(s@) =~= lines(s@));
    while i < n
        invariant
            n == s.len(),
            start <= i <= n,
            lines(s@) == done + lines(s@.subrange(start as int, n as int)),
            r.len() == done.len(),
            forall|k: int|
                0 <= k < r.len() ==> {
                    &&& (#[trigger] r@[k]).0 <= r@[k].1 <= s.len()
                    &&& s@.subrange(r@[k].0 as int, r@[k].1 as int) == done[k]
                },
            forall|j: int| start <= j < i ==> s@[j] != '\n',
        decreases n - i,
    {
        if s[i] == '\n' {
            let ghost rest = s@.subrange(start as int, n as int);
            proof {
                lemma_find_char_is(rest, '\n', 0, i - start);
                assert(rest.subrange(0, i - start) =~= s@.subrange(start as int, i as int));
                assert(rest.subrange(i - start + 1, rest.len() as int) =~= s@.subrange(
                    i + 1,
                    n as int,
                ));
            }
            let end = if i > start && s[i - 1] == '\r' {
                i - 1
            } else {
                i
            };
            proof {
                assert(s@.subrange(start as int, end as int) =~= strip_cr(
                    s@.subrange(start as int, i as int),
                ));
                done = done.push(strip_cr(s@.subrange(start as int, i as int)));
                assert(lines(s@) =~= done + lines(s@.subrange(i + 1, n as int)));
            }
            r.push((start, end));
            start = i + 1;
        }
        i = i + 1;
    }
    if start < n {
        let ghost rest = s@.subrange(start as int, n as int);
        proof {
            lemma_find_char_none(rest, '\n', 0);
            done = done.push(rest);
            assert(lines(s@) =~= done);
        }
        r.push((start, n));
    } else {
        assert(lines(s@) =~= done);
    }
    r
}

/// Append `s[lo..hi]` to `out`.
pub fn push_range(out: &mut Vec<char>, s: &Vec<char>, lo: usize, hi: usize)
    requires
        lo <= hi <= s.len(),
    ensures
        final(out)@ == old(out)@ + s@.subrange(lo as int, hi as int),
{
    let mut i = lo;
    while i < hi
        invariant
            lo <= i <= hi <= s.len(),
            out@ == old(out)@ + s@.subrange(lo as int, i as int),
        decreases hi - i,
    {
        out.push(s[i]);
        assert(out@ =~= old(out)@ + s@.subrange(lo as int, i + 1));
        i = i + 1;
    }
}

/// std's `String::push`: trusted to append `ch` to the characters of `s`, as its
/// documentation says.
pub assume_specification[ String::push ](s: &mut String, ch: char)
    ensures
        final(s)@ == old(s)@.push(ch),
;

/// The string made of the characters of `v`, in order.
pub(crate) fn string_of(v: &Vec<char>) -> (s: String)
    ensures
        s@ == v@,
{
    broadcast use vstd::string::group_string_axioms;

    let mut s = String::new();
    let n = v.len();
    for i in 0..n
        invariant
            n == v.len(),
            s@ == v@.take(i as int),
    {
        s.push(v[i]);
        assert(v@.take(i + 1) =~= v@.take(i as int).push(v@[i as int]));
    }
    assert(v@.take(n as int) =~= v@);
    s
}

} // verus!
