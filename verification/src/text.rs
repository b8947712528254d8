//! Character-level text operations shared by the rest of the library.
//!
//! Text is handled as a `Vec<char>` obtained once from a `&str`; positions
//! are character positions.  Operations on a window `v[a..b]` return the new
//! window bounds, so that callers can chain them without copying.
use vstd::prelude::*;

verus! {

/// The Unicode `White_Space` property, as documented for `char::is_whitespace`.
pub open spec fn is_ws(c: char) -> bool {
    ||| c == '\t'
    ||| c == '\n'
    ||| c == '\u{0B}'
    ||| c == '\u{0C}'
    ||| c == '\r'
    ||| c == ' '
    ||| c == '\u{85}'
    ||| c == '\u{A0}'
    ||| c == '\u{1680}'
    ||| ('\u{2000}' <= c && c <= '\u{200A}')
    ||| c == '\u{2028}'
    ||| c == '\u{2029}'
    ||| c == '\u{202F}'
    ||| c == '\u{205F}'
    ||| c == '\u{3000}'
}

/// `s` without its leading whitespace.
pub open spec fn trim_start(s: Seq<char>) -> Seq<char>
    decreases s.len(),
{
    if s.len() > 0 && is_ws(s[0]) {
        trim_start(s.drop_first())
    } else {
        s
    }
}

/// `s` without its trailing whitespace.
pub open spec fn trim_end(s: Seq<char>) -> Seq<char>
    decreases s.len(),
{
    if s.len() > 0 && is_ws(s.last()) {
        trim_end(s.drop_last())
    } else {
        s
    }
}

/// `s` without leading and trailing whitespace.
pub open spec fn trim(s: Seq<char>) -> Seq<char> {
    trim_end(trim_start(s))
}

/// `p` occurs in `s` at position `i`.
pub open spec fn occurs_at(s: Seq<char>, p: Seq<char>, i: int) -> bool {
    0 <= i && i + p.len() <= s.len() && s.subrange(i, i + p.len()) == p
}

/// `p` is a substring of `s`.
pub open spec fn has_substring(s: Seq<char>, p: Seq<char>) -> bool {
    exists|i: int| occurs_at(s, p, i)
}

/// `s` begins with `p`.
pub open spec fn is_prefix(p: Seq<char>, s: Seq<char>) -> bool {
    p.len() <= s.len() && s.subrange(0, p.len() as int) == p
}

/// `s` ends with `p`.
pub open spec fn is_suffix(p: Seq<char>, s: Seq<char>) -> bool {
    p.len() <= s.len() && s.subrange(s.len() - p.len(), s.len() as int) == p
}

/// `s` with the prefix `p` removed when it has it, else `s`.
pub open spec fn strip_prefix_or_self(s: Seq<char>, p: Seq<char>) -> Seq<char> {
    if is_prefix(p, s) {
        s.subrange(p.len() as int, s.len() as int)
    } else {
        s
    }
}

/// `s` with the suffix `p` removed when it has it, else `s`.
pub open spec fn strip_suffix_or_self(s: Seq<char>, p: Seq<char>) -> Seq<char> {
    if is_suffix(p, s) {
        s.subrange(0, s.len() - p.len())
    } else {
        s
    }
}

/// The first position at or after `from` where `p` occurs in `s`, or -1.
pub open spec fn next_occurrence(s: Seq<char>, p: Seq<char>, from: int) -> int
    decreases s.len() + 1 - from,
{
    if from < 0 || from + p.len() > s.len() {
        -1
    } else if occurs_at(s, p, from) {
        from
    } else {
        next_occurrence(s, p, from + 1)
    }
}

/// The first position of `c` in `s` at or after `from`, or `s.len()`.
pub open spec fn next_char(s: Seq<char>, c: char, from: int) -> int
    decreases s.len() - from,
{
    if from < 0 || from >= s.len() {
        s.len() as int
    } else if s[from] == c {
        from
    } else {
        next_char(s, c, from + 1)
    }
}

/// The last position of `c` in `s`, or -1.
pub open spec fn last_char(s: Seq<char>, c: char) -> int
    decreases s.len(),
{
    if s.len() == 0 {
        -1
    } else if s.last() == c {
        s.len() - 1
    } else {
        last_char(s.drop_last(), c)
    }
}

/// `c` has the `White_Space` property.
pub fn is_whitespace(c: char) -> (r: bool)
    ensures
        r == is_ws(c),
{
    c == '\t' || c == '\n' || c == '\u{0B}' || c == '\u{0C}' || c == '\r' || c == ' ' || c
        == '\u{85}' || c == '\u{A0}' || c == '\u{1680}' || ('\u{2000}' <= c && c <= '\u{200A}')
        || c == '\u{2028}' || c == '\u{2029}' || c == '\u{202F}' || c == '\u{205F}' || c
        == '\u{3000}'
}

/// The characters of `s`, in order.
pub fn chars_of(s: &str) -> (v: Vec<char>)
    ensures
        v@ == s@,
{
    let mut v: Vec<char> = Vec::new();
    for c in it: s.chars()
        invariant
            v@ == it.seq().take(it.index() as int),
            it.seq() == s@,
    {
        v.push(c);
    }
    v
}

/// An owned copy of the characters `from..to` of `s`.
pub fn substring(s: &str, from: usize, to: usize) -> (r: String)
    requires
        from <= to <= s@.len(),
    ensures
        r@ == s@.subrange(from as int, to as int),
{
    String::from_str(s.substring_char(from, to))
}

/// An owned copy of `s`.
pub fn owned(s: &str) -> (r: String)
    ensures
        r@ == s@,
{
    String::from_str(s)
}

/// Whether `s` and `t` hold the same characters.
pub fn str_eq(s: &str, t: &str) -> (r: bool)
    ensures
        r == (s@ == t@),
{
    let v = chars_of(s);
    let w = chars_of(t);
    chars_eq(&v, &w)
}

/// Whether `v` and `w` hold the same characters.
pub fn chars_eq(v: &Vec<char>, w: &Vec<char>) -> (r: bool)
    ensures
        r == (v@ == w@),
{
    if v.len() != w.len() {
        return false;
    }
    let mut i: usize = 0;
    while i < v.len()
        invariant
            i <= v.len() == w.len(),
            v@.subrange(0, i as int) == w@.subrange(0, i as int),
        decreases v.len() - i,
    {
        if v[i] != w[i] {
            assert(v@[i as int] != w@[i as int]);
            return false;
        }
        assert(v@.subrange(0, i + 1) =~= v@.subrange(0, i as int).push(v@[i as int]));
        assert(w@.subrange(0, i + 1) =~= w@.subrange(0, i as int).push(w@[i as int]));
        i = i + 1;
    }
    assert(v@ =~= v@.subrange(0, i as int));
    assert(w@ =~= w@.subrange(0, i as int));
    true
}

/// The start of `v[a..b]` once its leading whitespace is skipped.
pub fn skip_ws_start(v: &Vec<char>, a: usize, b: usize) -> (r: usize)
    requires
        a <= b <= v.len(),
    ensures
        a <= r <= b,
        v@.subrange(r as int, b as int) == trim_start(v@.subrange(a as int, b as int)),
{
    let mut i = a;
    while i < b && is_whitespace(v[i])
        invariant
            a <= i <= b <= v.len(),
            trim_start(v@.subrange(i as int, b as int)) == trim_start(
                v@.subrange(a as int, b as int),
            ),
        decreases b - i,
    {
        assert(v@.subrange(i as int, b as int).drop_first() =~= v@.subrange(i + 1, b as int));
        i = i + 1;
    }
    i
}

/// The end of `v[a..b]` once its trailing whitespace is skipped.
pub fn skip_ws_end(v: &Vec<char>, a: usize, b: usize) -> (r: usize)
    requires
        a <= b <= v.len(),
    ensures
        a <= r <= b,
        v@.subrange(a as int, r as int) == trim_end(v@.subrange(a as int, b as int)),
{
    let mut j = b;
    while j > a && is_whitespace(v[j - 1])
        invariant
            a <= j <= b <= v.len(),
            trim_end(v@.subrange(a as int, j as int)) == trim_end(v@.subrange(a as int, b as int)),
        decreases j - a,
    {
        assert(v@.subrange(a as int, j as int).drop_last() =~= v@.subrange(a as int, j - 1));
        j = j - 1;
    }
    j
}

/// The bounds of `v[a..b]` without its surrounding whitespace.
pub fn trim_window(v: &Vec<char>, a: usize, b: usize) -> (r: (usize, usize))
    requires
        a <= b <= v.len(),
    ensures
        a <= r.0 <= r.1 <= b,
        v@.subrange(r.0 as int, r.1 as int) == trim(v@.subrange(a as int, b as int)),
{
    let s = skip_ws_start(v, a, b);
    let e = skip_ws_end(v, s, b);
    (s, e)
}

/// Whether `p` occurs in `v` at position `i`.
pub fn matches_at(v: &Vec<char>, p: &Vec<char>, i: usize) -> (r: bool)
    ensures
        r == occurs_at(v@, p@, i as int),
{
    if i > v.len() || p.len() > v.len() - i {
        return false;
    }
    let mut k: usize = 0;
    while k < p.len()
        invariant
            i + p.len() <= v.len(),
            k <= p.len(),
            v@.subrange(i as int, i + k) == p@.subrange(0, k as int),
        decreases p.len() - k,
    {
        if v[i + k] != p[k] {
            assert(v@.subrange(i as int, i + p.len())[k as int] != p@[k as int]);
            return false;
        }
        assert(v@.subrange(i as int, i + k + 1) =~= v@.subrange(i as int, i + k).push(
            v@[i + k],
        ));
        assert(p@.subrange(0, k + 1) =~= p@.subrange(0, k as int).push(p@[k as int]));
        k = k + 1;
    }
    assert(p@ =~= p@.subrange(0, k as int));
    true
}

/// The first position at or after `from` where `p` occurs in `v`.
pub fn find_from(v: &Vec<char>, p: &Vec<char>, from: usize) -> (r: Option<usize>)
    ensures
        match r {
            Some(k) => k as int == next_occurrence(v@, p@, from as int),
            None => next_occurrence(v@, p@, from as int) == -1,
        },
{
    let mut i = from;
    while i <= v.len() && p.len() <= v.len() - i
        invariant
            from <= i,
            next_occurrence(v@, p@, from as int) == next_occurrence(v@, p@, i as int),
        decreases v.len() + 1 - i,
    {
        if matches_at(v, p, i) {
            return Some(i);
        }
        proof {
            if i == v.len() {
                assert(v@.subrange(i as int, i as int) =~= p@);
            }
        }
        i = i + 1;
    }
    None
}

/// Whether `p` is a substring of `v`.
pub fn contains_chars(v: &Vec<char>, p: &Vec<char>) -> (r: bool)
    ensures
        r == has_substring(v@, p@),
{
    match find_from(v, p, 0) {
        Some(k) => {
            proof {
                lemma_next_occurrence_found(v@, p@, 0);
                assert(occurs_at(v@, p@, k as int));
            }
            true
        },
        None => {
            proof {
                lemma_next_occurrence_none(v@, p@, 0);
            }
            false
        },
    }
}

/// Whether `p` is a substring of `s`.
pub fn contains_str(s: &str, p: &str) -> (r: bool)
    ensures
        r == has_substring(s@, p@),
{
    let v = chars_of(s);
    let w = chars_of(p);
    contains_chars(&v, &w)
}

/// A found occurrence is an occurrence.
pub proof fn lemma_next_occurrence_found(s: Seq<char>, p: Seq<char>, from: int)
    requires
        next_occurrence(s, p, from) != -1,
    ensures
        from <= next_occurrence(s, p, from),
        occurs_at(s, p, next_occurrence(s, p, from)),
        forall|k: int| from <= k < next_occurrence(s, p, from) ==> !occurs_at(s, p, k),
    decreases s.len() + 1 - from,
{
    if from < 0 || from + p.len() > s.len() {
    } else if occurs_at(s, p, from) {
    } else {
        lemma_next_occurrence_found(s, p, from + 1);
    }
}

/// No occurrence is found only where there is none.
pub proof fn lemma_next_occurrence_none(s: Seq<char>, p: Seq<char>, from: int)
    requires
        next_occurrence(s, p, from) == -1,
        0 <= from,
    ensures
        forall|k: int| from <= k ==> !occurs_at(s, p, k),
    decreases s.len() + 1 - from,
{
    if from + p.len() > s.len() {
    } else if occurs_at(s, p, from) {
    } else {
        lemma_next_occurrence_none(s, p, from + 1);
    }
}

/// A substring of a substring is a substring.
pub proof fn lemma_substring_trans(s: Seq<char>, t: Seq<char>, u: Seq<char>)
    requires
        has_substring(s, t),
        has_substring(t, u),
    ensures
        has_substring(s, u),
{
    let i = choose|i: int| occurs_at(s, t, i);
    let j = choose|j: int| occurs_at(t, u, j);
    assert(s.subrange(i + j, i + j + u.len()) =~= t.subrange(j, j + u.len()));
    assert(occurs_at(s, u, i + j));
}

/// The first occurrence of `c` in `v` at or after `from`, or `v.len()`.
pub fn find_char(v: &Vec<char>, c: char, from: usize) -> (r: usize)
    ensures
        r as int == next_char(v@, c, from as int),
{
    let mut i = from;
    while i < v.len()
        invariant
            from <= i,
            next_char(v@, c, from as int) == next_char(v@, c, i as int),
        decreases v.len() - i,
    {
        if v[i] == c {
            return i;
        }
        i = i + 1;
    }
    v.len()
}

/// Facts about `next_char`.
pub proof fn lemma_next_char(s: Seq<char>, c: char, from: int)
    requires
        0 <= from <= s.len(),
    ensures
        from <= next_char(s, c, from) <= s.len(),
        next_char(s, c, from) < s.len() ==> s[next_char(s, c, from)] == c,
        forall|k: int| from <= k < next_char(s, c, from) ==> s[k] != c,
    decreases s.len() - from,
{
    if from < s.len() && s[from] != c {
        lemma_next_char(s, c, from + 1);
    }
}

/// The window `v[a..b]` without the prefix `p`, when it starts with `p`.
pub fn strip_prefix_window(v: &Vec<char>, a: usize, b: usize, p: &Vec<char>) -> (r: usize)
    requires
        a <= b <= v.len(),
    ensures
        a <= r <= b,
        v@.subrange(r as int, b as int) == strip_prefix_or_self(
            v@.subrange(a as int, b as int),
            p@,
        ),
{
    if p.len() <= b - a && matches_at(v, p, a) {
        assert(v@.subrange(a as int, b as int).subrange(0, p@.len() as int) =~= v@.subrange(
            a as int,
            a + p@.len(),
        ));
        assert(v@.subrange(a as int, b as int).subrange(p@.len() as int, (b - a) as int)
            =~= v@.subrange(a + p@.len(), b as int));
        a + p.len()
    } else {
        proof {
            if p.len() <= b - a {
                assert(v@.subrange(a as int, b as int).subrange(0, p@.len() as int)
                    =~= v@.subrange(a as int, a + p@.len()));
            }
        }
        a
    }
}

/// The window `v[a..b]` without the suffix `p`, when it ends with `p`.
pub fn strip_suffix_window(v: &Vec<char>, a: usize, b: usize, p: &Vec<char>) -> (r: usize)
    requires
        a <= b <= v.len(),
    ensures
        a <= r <= b,
        v@.subrange(a as int, r as int) == strip_suffix_or_self(
            v@.subrange(a as int, b as int),
            p@,
        ),
{
    if p.len() <= b - a && matches_at(v, p, b - p.len()) {
        assert(v@.subrange(a as int, b as int).subrange((b - a) - p@.len(), (b - a) as int)
            =~= v@.subrange(b - p@.len(), b as int));
        assert(v@.subrange(a as int, b as int).subrange(0, (b - a) - p@.len()) =~= v@.subrange(
            a as int,
            b - p@.len(),
        ));
        b - p.len()
    } else {
        proof {
            if p.len() <= b - a {
                assert(v@.subrange(a as int, b as int).subrange((b - a) - p@.len(), (b - a) as int)
                    =~= v@.subrange(b - p@.len(), b as int));
            }
        }
        b
    }
}

/// `v[a..b]` starts with `p`.
pub fn window_starts_with(v: &Vec<char>, a: usize, b: usize, p: &Vec<char>) -> (r: bool)
    requires
        a <= b <= v.len(),
    ensures
        r == is_prefix(p@, v@.subrange(a as int, b as int)),
{
    if p.len() <= b - a {
        assert(v@.subrange(a as int, b as int).subrange(0, p@.len() as int) =~= v@.subrange(
            a as int,
            a + p@.len(),
        ));
        matches_at(v, p, a)
    } else {
        false
    }
}

/// `v[a..b]` equals `p`.
pub fn window_eq(v: &Vec<char>, a: usize, b: usize, p: &Vec<char>) -> (r: bool)
    requires
        a <= b <= v.len(),
    ensures
        r == (v@.subrange(a as int, b as int) == p@),
{
    if p.len() == b - a {
        matches_at(v, p, a)
    } else {
        false
    }
}

/// `s` without leading and trailing whitespace.
pub fn trimmed(s: &str) -> (r: String)
    ensures
        r@ == trim(s@),
{
    let v = chars_of(s);
    let (a, b) = trim_window(&v, 0, v.len());
    assert(v@.subrange(0, v@.len() as int) =~= v@);
    substring(s, a, b)
}

/// `s` without trailing whitespace.
pub fn trimmed_end(s: &str) -> (r: String)
    ensures
        r@ == trim_end(s@),
{
    let v = chars_of(s);
    let b = skip_ws_end(&v, 0, v.len());
    assert(v@.subrange(0, v@.len() as int) =~= v@);
    substring(s, 0, b)
}

/// The first `n` characters of `s` (all of it when it is shorter).
pub fn take_chars(s: &str, n: usize) -> (r: String)
    ensures
        r@ == s@.take(if n < s@.len() { n as int } else { s@.len() as int }),
{
    let len = s.unicode_len();
    let k = if n < len {
        n
    } else {
        len
    };
    substring(s, 0, k)
}

/// A line without the carriage return of a `\r\n` ending.
pub open spec fn strip_cr(line: Seq<char>) -> Seq<char> {
    if line.len() > 0 && line.last() == '\r' {
        line.drop_last()
    } else {
        line
    }
}

/// The lines of `s` from position `p` on, as `str::lines` gives them: split
/// at `\n`, a `\r` before the `\n` dropped, no empty line after a final `\n`.
pub open spec fn lines_from(s: Seq<char>, p: int) -> Seq<Seq<char>>
    decreases s.len() + 1 - p,
{
    if p < 0 || p >= s.len() {
        seq![]
    } else {
        let j = next_char(s, '\n', p);
        proof {
            lemma_next_char(s, '\n', p);
        }
        let line = if j < s.len() {
            strip_cr(s.subrange(p, j))
        } else {
            s.subrange(p, j)
        };
        seq![line] + lines_from(s, j + 1)
    }
}

/// The lines of `s`, as `str::lines` gives them.
pub open spec fn lines(s: Seq<char>) -> Seq<Seq<char>> {
    lines_from(s, 0)
}

/// `next_char` in `a + b` from a position in `b`.
proof fn lemma_next_char_shift(a: Seq<char>, b: Seq<char>, c: char, q: int)
    requires
        0 <= q <= b.len(),
    ensures
        next_char(a + b, c, a.len() + q) == a.len() + next_char(b, c, q),
    decreases b.len() - q,
{
    if q < b.len() {
        assert((a + b)[a.len() + q] == b[q]);
        if b[q] != c {
            lemma_next_char_shift(a, b, c, q + 1);
        }
    }
}

/// `next_char` in `a + b` finds the same `c` as in `a` when `a` has one.
proof fn lemma_next_char_prefix(a: Seq<char>, b: Seq<char>, c: char, p: int)
    requires
        0 <= p <= a.len(),
        next_char(a, c, p) < a.len(),
    ensures
        next_char(a + b, c, p) == next_char(a, c, p),
    decreases a.len() - p,
{
    assert((a + b)[p] == a[p]);
    if a[p] != c {
        lemma_next_char_prefix(a, b, c, p + 1);
    }
}

/// The lines of `a + b` from a position in `b` are those of `b`.
proof fn lemma_lines_from_shift(a: Seq<char>, b: Seq<char>, q: int)
    requires
        0 <= q <= b.len(),
    ensures
        lines_from(a + b, a.len() + q) == lines_from(b, q),
    decreases b.len() - q,
{
    if q < b.len() {
        let s = a + b;
        let j = next_char(b, '\n', q);
        lemma_next_char(b, '\n', q);
        lemma_next_char_shift(a, b, '\n', q);
        assert(s.subrange(a.len() + q, a.len() + j) =~= b.subrange(q, j));
        let line = if j < b.len() {
            strip_cr(b.subrange(q, j))
        } else {
            b.subrange(q, j)
        };
        if j < b.len() {
            lemma_lines_from_shift(a, b, j + 1);
        } else {
            assert(lines_from(b, j + 1) =~= Seq::<Seq<char>>::empty());
            assert(lines_from(s, a.len() + j + 1) =~= Seq::<Seq<char>>::empty());
        }
        assert(lines_from(b, q) == seq![line] + lines_from(b, j + 1));
        assert(lines_from(s, a.len() + q) == seq![line] + lines_from(s, a.len() + j + 1));
    }
}

/// The lines of `a + b`, where `a` is empty or ends with a newline, are the
/// lines of `a` followed by those of `b`.
pub proof fn lemma_lines_concat(a: Seq<char>, b: Seq<char>)
    requires
        a.len() == 0 || a.last() == '\n',
    ensures
        lines(a + b) == lines(a) + lines(b),
{
    lemma_lines_from_concat(a, b, 0);
}

proof fn lemma_lines_from_concat(a: Seq<char>, b: Seq<char>, p: int)
    requires
        a.len() == 0 || a.last() == '\n',
        0 <= p <= a.len(),
    ensures
        lines_from(a + b, p) == lines_from(a, p) + lines_from(b, 0),
    decreases a.len() - p,
{
    if p == a.len() {
        lemma_lines_from_shift(a, b, 0);
        assert(lines_from(a, p) =~= Seq::<Seq<char>>::empty());
        assert(lines_from(a, p) + lines_from(b, 0) =~= lines_from(b, 0));
    } else {
        let s = a + b;
        lemma_next_char(a, '\n', p);
        let j = next_char(a, '\n', p);
        assert(j < a.len()) by {
            if j == a.len() {
                assert(a[a.len() - 1] == '\n');
            }
        }
        lemma_next_char_prefix(a, b, '\n', p);
        assert(s.subrange(p, j) =~= a.subrange(p, j));
        lemma_lines_from_concat(a, b, j + 1);
        assert(lines_from(a, p) == seq![strip_cr(a.subrange(p, j))] + lines_from(a, j + 1));
        assert(lines_from(s, p) == seq![strip_cr(a.subrange(p, j))] + lines_from(s, j + 1));
        assert(seq![strip_cr(a.subrange(p, j))] + (lines_from(a, j + 1) + lines_from(b, 0))
            =~= (seq![strip_cr(a.subrange(p, j))] + lines_from(a, j + 1)) + lines_from(b, 0));
    }
}

/// `s` holds no newline.
pub open spec fn no_newline(s: Seq<char>) -> bool {
    forall|i: int| 0 <= i < s.len() ==> s[i] != '\n'
}

/// `s` is empty or does not end with a carriage return.
pub open spec fn no_trailing_cr(s: Seq<char>) -> bool {
    s.len() == 0 || s.last() != '\r'
}

/// A line without newlines, followed by one, is that single line.
pub proof fn lemma_lines_single(l: Seq<char>)
    requires
        no_newline(l),
        no_trailing_cr(l),
    ensures
        lines(l.push('\n')) == seq![l],
{
    let s = l.push('\n');
    lemma_next_char(s, '\n', 0);
    let j = next_char(s, '\n', 0);
    assert(j == l.len()) by {
        if j < l.len() {
            assert(s[j] == l[j]);
        }
        if j > l.len() {
            assert(s[l.len() as int] == '\n');
        }
    }
    assert(s.subrange(0, j) =~= l);
    assert(lines_from(s, j + 1) =~= Seq::<Seq<char>>::empty());
}

/// No line of `s` holds a newline.
pub proof fn lemma_lines_no_newline(s: Seq<char>)
    ensures
        forall|i: int| 0 <= i < lines(s).len() ==> no_newline(#[trigger] lines(s)[i]),
{
    lemma_lines_from_no_newline(s, 0);
}

proof fn lemma_lines_from_no_newline(s: Seq<char>, p: int)
    requires
        0 <= p,
    ensures
        forall|i: int| 0 <= i < lines_from(s, p).len() ==> no_newline(#[trigger] lines_from(s, p)[i]),
    decreases s.len() + 1 - p,
{
    if p < s.len() {
        lemma_next_char(s, '\n', p);
        let j = next_char(s, '\n', p);
        lemma_lines_from_no_newline(s, j + 1);
        let line = if j < s.len() {
            strip_cr(s.subrange(p, j))
        } else {
            s.subrange(p, j)
        };
        assert(no_newline(line));
        let r = lines_from(s, p);
        assert(r == seq![line] + lines_from(s, j + 1));
        assert forall|i: int| 0 <= i < r.len() implies no_newline(#[trigger] r[i]) by {
            if i > 0 {
                assert(r[i] == lines_from(s, j + 1)[i - 1]);
            }
        }
    }
}

/// The lines of `s`, as `str::lines` gives them.
pub fn split_lines(s: &str) -> (r: Vec<String>)
    ensures
        r@.map_values(|x: String| x@) == lines(s@),
{
    let v = chars_of(s);
    let n = v.len();
    let mut r: Vec<String> = Vec::new();
    let mut p: usize = 0;
    assert(lines(s@) =~= r@.map_values(|x: String| x@) + lines_from(v@, 0));
    while p < n
        invariant
            v@ == s@,
            n == v@.len(),
            p <= n,
            lines(s@) == r@.map_values(|x: String| x@) + lines_from(v@, p as int),
        decreases n - p,
    {
        let j = find_char(&v, '\n', p);
        proof {
            lemma_next_char(v@, '\n', p as int);
        }
        let mut end = j;
        if j < n && j > p && v[j - 1] == '\r' {
            end = j - 1;
        }
        let line = substring(s, p, end);
        let ghost line_v = if j < n {
            strip_cr(v@.subrange(p as int, j as int))
        } else {
            v@.subrange(p as int, j as int)
        };
        proof {
            if j < n && j > p && v@[j - 1] == '\r' {
                assert(v@.subrange(p as int, j as int).drop_last() =~= v@.subrange(
                    p as int,
                    j - 1,
                ));
            }
            assert(line@ == line_v);
            assert(lines_from(v@, p as int) == seq![line_v] + lines_from(v@, j + 1));
        }
        let ghost before = r@.map_values(|x: String| x@);
        r.push(line);
        proof {
            assert(r@.map_values(|x: String| x@) =~= before.push(line_v));
            assert(before + (seq![line_v] + lines_from(v@, j + 1)) =~= before.push(line_v)
                + lines_from(v@, j + 1));
        }
        if j < n {
            p = j + 1;
        } else {
            proof {
                assert(lines_from(v@, j + 1) =~= Seq::<Seq<char>>::empty());
            }
            p = n;
        }
    }
    assert(lines_from(v@, p as int) =~= Seq::<Seq<char>>::empty());
    assert(r@.map_values(|x: String| x@) + Seq::<Seq<char>>::empty() =~= r@.map_values(
        |x: String| x@,
    ));
    r
}

/// The decimal digit character for `d < 10`.
pub open spec fn digit_char(d: nat) -> char {
    if d == 0 { '0' } else if d == 1 { '1' } else if d == 2 { '2' } else if d == 3 { '3' }
    else if d == 4 { '4' } else if d == 5 { '5' } else if d == 6 { '6' } else if d == 7 { '7' }
    else if d == 8 { '8' } else { '9' }
}

/// The decimal numeral of `n`, without leading zeros.
pub open spec fn decimal(n: nat) -> Seq<char>
    decreases n,
{
    if n < 10 {
        seq![digit_char(n)]
    } else {
        decimal(n / 10).push(digit_char(n % 10))
    }
}

/// The digit character for `d < 10`.
fn digit(d: usize) -> (c: char)
    requires
        d < 10,
    ensures
        c == digit_char(d as nat),
{
    if d == 0 { '0' } else if d == 1 { '1' } else if d == 2 { '2' } else if d == 3 { '3' }
    else if d == 4 { '4' } else if d == 5 { '5' } else if d == 6 { '6' } else if d == 7 { '7' }
    else if d == 8 { '8' } else { '9' }
}

/// The decimal numeral of `n`, as `format!("{n}")` writes it.
pub fn decimal_string(n: usize) -> (r: String)
    ensures
        r@ == decimal(n as nat),
    decreases n,
{
    if n < 10 {
        let mut r = String::new();
        r.push(digit(n));
        r
    } else {
        let mut r = decimal_string(n / 10);
        r.push(digit(n % 10));
        r
    }
}

/// `String::push` appends one character.
pub assume_specification[ std::string::String::push ](s: &mut std::string::String, ch: char)
    ensures
        final(s)@ == old(s)@.push(ch),
;

/// The string holding the characters of `v`.
pub fn string_of(v: &Vec<char>) -> (r: String)
    ensures
        r@ == v@,
{
    let mut r = String::new();
    let mut k: usize = 0;
    while k < v.len()
        invariant
            k <= v.len(),
            r@ == v@.subrange(0, k as int),
        decreases v.len() - k,
    {
        r.push(v[k]);
        assert(v@.subrange(0, k + 1) =~= v@.subrange(0, k as int).push(v@[k as int]));
        k = k + 1;
    }
    assert(v@.subrange(0, v@.len() as int) =~= v@);
    r
}

/// `a` followed by `b`.
pub fn concat2(a: &str, b: &str) -> (r: String)
    ensures
        r@ == a@ + b@,
{
    let mut r = String::from_str(a);
    r.append(b);
    r
}

/// `a`, `b` and `c`, in order.
pub fn concat3(a: &str, b: &str, c: &str) -> (r: String)
    ensures
        r@ == a@ + b@ + c@,
{
    let mut r = String::from_str(a);
    r.append(b);
    r.append(c);
    r
}

} // verus!
