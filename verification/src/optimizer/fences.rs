//! Unwrapping JSON that a language model returned inside a markdown code block.
use vstd::prelude::*;
use crate::text::{
    trim, trim_start, trim_end, is_ws, is_prefix, is_suffix, strip_prefix_or_self,
    strip_suffix_or_self, chars_of, trim_window, strip_prefix_window, strip_suffix_window,
};

verus! {

/// `s` trimmed, without a leading "```json" or "```" and a trailing "```", trimmed again.
pub open spec fn spec_strip_code_fences(s: Seq<char>) -> Seq<char> {
    trim(
        strip_suffix_or_self(
            strip_prefix_or_self(strip_prefix_or_self(trim(s), "```json"@), "```"@),
            "```"@,
        ),
    )
}

/// The bounds, within `s`, of `s` without its code fences.
pub(crate) fn code_fence_window(s: &str) -> (r: (usize, usize))
    ensures
        r.0 <= r.1 <= s@.len(),
        s@.subrange(r.0 as int, r.1 as int) == spec_strip_code_fences(s@),
{
    let v = chars_of(s);
    let json_fence = chars_of("```json");
    let fence = chars_of("```");
    assert(v@.subrange(0, v@.len() as int) =~= v@);
    let (a0, b0) = trim_window(&v, 0, v.len());
    let a1 = strip_prefix_window(&v, a0, b0, &json_fence);
    let a2 = strip_prefix_window(&v, a1, b0, &fence);
    let b1 = strip_suffix_window(&v, a2, b0, &fence);
    trim_window(&v, a2, b1)
}

/// Strips markdown code fences from LLM JSON responses.
pub fn strip_code_fences(s: &str) -> (r: &str)
    ensures
        r@ == spec_strip_code_fences(s@),
{
    let (a, b) = code_fence_window(s);
    s.substring_char(a, b)
}

/// Where `trim_start` cuts `s`: what is left starts at the position
/// returned, with no whitespace there.
proof fn lemma_trim_start_at(s: Seq<char>) -> (a: int)
    ensures
        0 <= a <= s.len(),
        trim_start(s) == s.subrange(a, s.len() as int),
        a < s.len() ==> !is_ws(s[a]),
    decreases s.len(),
{
    if s.len() > 0 && is_ws(s[0]) {
        let a = lemma_trim_start_at(s.drop_first());
        assert(s.drop_first().subrange(a, s.drop_first().len() as int) =~= s.subrange(
            a + 1,
            s.len() as int,
        ));
        a + 1
    } else {
        assert(s.subrange(0, s.len() as int) =~= s);
        0
    }
}

/// Where `trim_end` cuts `s`: what is left ends at the position returned,
/// with no whitespace just before it.
proof fn lemma_trim_end_at(s: Seq<char>) -> (b: int)
    ensures
        0 <= b <= s.len(),
        trim_end(s) == s.subrange(0, b),
        b > 0 ==> !is_ws(s[b - 1]),
    decreases s.len(),
{
    if s.len() > 0 && is_ws(s.last()) {
        let b = lemma_trim_end_at(s.drop_last());
        assert(s.drop_last().subrange(0, b) =~= s.subrange(0, b));
        b
    } else {
        assert(s.subrange(0, s.len() as int) =~= s);
        s.len() as int
    }
}

/// Trimming cuts a piece out of `s` that neither starts nor ends with
/// whitespace, and trimming that piece again leaves it as it is.
proof fn lemma_trim_at(s: Seq<char>) -> (r: (int, int))
    ensures
        0 <= r.0 <= r.1 <= s.len(),
        trim(s) == s.subrange(r.0, r.1),
        trim(trim(s)) == trim(s),
{
    let a = lemma_trim_start_at(s);
    let u = trim_start(s);
    let b = lemma_trim_end_at(u);
    let t = trim(s);
    assert(u.subrange(0, b) =~= s.subrange(a, a + b));
    if t.len() > 0 {
        assert(t[0] == u[0]);
    }
    let a2 = lemma_trim_start_at(t);
    if t.len() > 0 {
        assert(a2 == 0);
    }
    assert(t.subrange(a2, t.len() as int) =~= t);
    let b2 = lemma_trim_end_at(t);
    if t.len() > 0 {
        assert(t[t.len() - 1] == u[b - 1]);
        assert(b2 == t.len());
    }
    assert(t.subrange(0, b2) =~= t);
    (a, a + b)
}

proof fn lemma_strip_prefix_at(t: Seq<char>, p: Seq<char>) -> (a: int)
    ensures
        0 <= a <= t.len(),
        strip_prefix_or_self(t, p) == t.subrange(a, t.len() as int),
{
    if is_prefix(p, t) {
        p.len() as int
    } else {
        assert(t.subrange(0, t.len() as int) =~= t);
        0
    }
}

proof fn lemma_strip_suffix_at(t: Seq<char>, p: Seq<char>) -> (b: int)
    ensures
        0 <= b <= t.len(),
        strip_suffix_or_self(t, p) == t.subrange(0, b),
{
    if is_suffix(p, t) {
        t.len() - p.len()
    } else {
        assert(t.subrange(0, t.len() as int) =~= t);
        t.len() as int
    }
}

/// A text without a leading "```" has no leading "```json" either.
proof fn lemma_no_fence_no_json_fence(t: Seq<char>)
    requires
        !is_prefix("```"@, t),
    ensures
        !is_prefix("```json"@, t),
{
    reveal_strlit("```");
    reveal_strlit("```json");
    if is_prefix("```json"@, t) {
        assert(t.subrange(0, 3) =~= t.subrange(0, 7).subrange(0, 3));
        assert("```json"@.subrange(0, 3) =~= "```"@);
    }
}

proof fn lemma_subrange_of_subrange(s: Seq<char>, a: int, b: int, c: int, d: int)
    requires
        0 <= a <= b <= s.len(),
        0 <= c <= d <= b - a,
    ensures
        s.subrange(a, b).subrange(c, d) == s.subrange(a + c, a + d),
{
    assert(s.subrange(a, b).subrange(c, d) =~= s.subrange(a + c, a + d));
}

/// The fence-stripped text is `s.subrange(r.0, r.1)`.
proof fn lemma_strip_piece(s: Seq<char>) -> (r: (int, int))
    ensures
        0 <= r.0 <= r.1 <= s.len(),
        s.subrange(r.0, r.1) == spec_strip_code_fences(s),
{
    let (a0, b0) = lemma_trim_at(s);
    let t0 = trim(s);
    let a1 = lemma_strip_prefix_at(t0, "```json"@);
    let t1 = strip_prefix_or_self(t0, "```json"@);
    lemma_subrange_of_subrange(s, a0, b0, a1, b0 - a0);
    let a2 = lemma_strip_prefix_at(t1, "```"@);
    let t2 = strip_prefix_or_self(t1, "```"@);
    lemma_subrange_of_subrange(s, a0 + a1, b0, a2, b0 - a0 - a1);
    let b3 = lemma_strip_suffix_at(t2, "```"@);
    let t3 = strip_suffix_or_self(t2, "```"@);
    let lo = a0 + a1 + a2;
    lemma_subrange_of_subrange(s, lo, b0, 0, b3);
    let (a4, b4) = lemma_trim_at(t3);
    lemma_subrange_of_subrange(s, lo, lo + b3, a4, b4);
    (lo + a4, lo + b4)
}

/// Without fences around the trimmed text, stripping gives the trimmed text.
proof fn lemma_strip_without_fences(s: Seq<char>)
    requires
        !is_prefix("```"@, trim(s)),
        !is_suffix("```"@, trim(s)),
    ensures
        spec_strip_code_fences(s) == trim(s),
{
    let t0 = trim(s);
    lemma_no_fence_no_json_fence(t0);
    lemma_trim_at(s);
    assert(strip_prefix_or_self(t0, "```json"@) == t0);
    assert(strip_prefix_or_self(t0, "```"@) == t0);
    assert(strip_suffix_or_self(t0, "```"@) == t0);
}

/// Stripping code fences gives a piece of the input that neither starts
/// nor ends with whitespace; when the trimmed input neither starts nor
/// ends with a fence, it is the trimmed input.
pub proof fn law_strip_code_fences(s: Seq<char>)
    ensures
        exists|a: int, b: int|
            0 <= a <= b <= s.len() && #[trigger] s.subrange(a, b) == spec_strip_code_fences(s),
        trim(spec_strip_code_fences(s)) == spec_strip_code_fences(s),
        !is_prefix("```"@, trim(s)) && !is_suffix("```"@, trim(s)) ==> spec_strip_code_fences(s)
            == trim(s),
{
    let (a, b) = lemma_strip_piece(s);
    let t3 = strip_suffix_or_self(
        strip_prefix_or_self(strip_prefix_or_self(trim(s), "```json"@), "```"@),
        "```"@,
    );
    lemma_trim_at(t3);
    if !is_prefix("```"@, trim(s)) && !is_suffix("```"@, trim(s)) {
        lemma_strip_without_fences(s);
    }
}

} // verus!
