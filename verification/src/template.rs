//! Placeholder variables in prompt templates (`%%NAME%%` and `{{name}}`).
//!
//! A scan walks the text left to right; wherever it sees the opening
//! delimiter it takes the text up to and including the next closing
//! delimiter as one variable and resumes after it.  The delimiters are ASCII,
//! so scanning characters finds the same variables as scanning UTF-8 bytes.
use vstd::prelude::*;
use crate::text::{
    has_substring, occurs_at, next_occurrence, chars_of, find_from, contains_chars,
    lemma_next_occurrence_found, lemma_substring_trans, string_of,
};

verus! {

/// The variables found by scanning `s` from position `i`, with the opening
/// delimiter `open open` and the closing delimiter `close close`.
pub open spec fn scan_vars(s: Seq<char>, open: char, close: char, i: int) -> Seq<Seq<char>>
    decreases s.len() - i,
{
    if i < 0 || i + 3 >= s.len() {
        seq![]
    } else if s[i] == open && s[i + 1] == open && next_occurrence(s, seq![close, close], i + 2)
        != -1 {
        let j = next_occurrence(s, seq![close, close], i + 2);
        proof {
            lemma_next_occurrence_found(s, seq![close, close], i + 2);
        }
        seq![s.subrange(i, j + 2)] + scan_vars(s, open, close, j + 2)
    } else {
        scan_vars(s, open, close, i + 1)
    }
}

/// The `%%NAME%%` variables of `s`, in order of appearance.
pub open spec fn percent_vars(s: Seq<char>) -> Seq<Seq<char>> {
    scan_vars(s, '%', '%', 0)
}

/// The `{{name}}` variables of `s`, in order of appearance.
pub open spec fn mustache_vars(s: Seq<char>) -> Seq<Seq<char>> {
    scan_vars(s, '{', '}', 0)
}

/// Every variable in `vars` occurs in `text`.
pub open spec fn all_present(vars: Seq<Seq<char>>, text: Seq<char>) -> bool {
    forall|k: int| 0 <= k < vars.len() ==> has_substring(text, #[trigger] vars[k])
}

/// Every placeholder of `original` occurs in `candidate`.
pub open spec fn preserves_templates(original: Seq<char>, candidate: Seq<char>) -> bool {
    all_present(percent_vars(original), candidate) && all_present(
        mustache_vars(original),
        candidate,
    )
}

/// `xs` without repeats, each kept at its first appearance.
pub open spec fn dedup(xs: Seq<Seq<char>>) -> Seq<Seq<char>>
    decreases xs.len(),
{
    if xs.len() == 0 {
        seq![]
    } else {
        let d = dedup(xs.drop_last());
        if d.contains(xs.last()) {
            d
        } else {
            d.push(xs.last())
        }
    }
}

/// The distinct placeholders of `s`: `%%NAME%%` ones first, then `{{name}}` ones.
pub open spec fn template_vars(s: Seq<char>) -> Seq<Seq<char>> {
    dedup(percent_vars(s) + mustache_vars(s))
}

/// The views of a list of character vectors.
pub open spec fn views(vs: Seq<Vec<char>>) -> Seq<Seq<char>> {
    vs.map_values(|v: Vec<char>| v@)
}

/// Every scanned variable is a piece of the scanned text.
pub proof fn lemma_scan_vars_substrings(s: Seq<char>, open: char, close: char, i: int)
    ensures
        forall|k: int|
            0 <= k < scan_vars(s, open, close, i).len() ==> has_substring(
                s,
                #[trigger] scan_vars(s, open, close, i)[k],
            ),
    decreases s.len() - i,
{
    if i < 0 || i + 3 >= s.len() {
    } else if s[i] == open && s[i + 1] == open && next_occurrence(s, seq![close, close], i + 2)
        != -1 {
        let j = next_occurrence(s, seq![close, close], i + 2);
        lemma_next_occurrence_found(s, seq![close, close], i + 2);
        lemma_scan_vars_substrings(s, open, close, j + 2);
        let v = s.subrange(i, j + 2);
        assert(occurs_at(s, v, i));
        let all = scan_vars(s, open, close, i);
        let rest = scan_vars(s, open, close, j + 2);
        assert(all == seq![v] + rest);
        assert forall|k: int| 0 <= k < all.len() implies has_substring(s, #[trigger] all[k]) by {
            if k == 0 {
                assert(all[k] == v);
            } else {
                assert(all[k] == rest[k - 1]);
            }
        }
    } else {
        lemma_scan_vars_substrings(s, open, close, i + 1);
        assert(scan_vars(s, open, close, i) == scan_vars(s, open, close, i + 1));
    }
}

/// Every scanned variable begins with the opening delimiter twice and ends
/// with the closing delimiter twice.
pub proof fn lemma_scan_vars_delimited(s: Seq<char>, open: char, close: char, i: int)
    ensures
        forall|k: int|
            0 <= k < scan_vars(s, open, close, i).len() ==> {
                let v = #[trigger] scan_vars(s, open, close, i)[k];
                &&& v.len() >= 4
                &&& v[0] == open && v[1] == open
                &&& v[v.len() - 2] == close && v[v.len() - 1] == close
            },
    decreases s.len() - i,
{
    if i < 0 || i + 3 >= s.len() {
    } else if s[i] == open && s[i + 1] == open && next_occurrence(s, seq![close, close], i + 2)
        != -1 {
        let j = next_occurrence(s, seq![close, close], i + 2);
        lemma_next_occurrence_found(s, seq![close, close], i + 2);
        lemma_scan_vars_delimited(s, open, close, j + 2);
        let v = s.subrange(i, j + 2);
        assert(s.subrange(j, j + 2) == seq![close, close]);
        assert(s.subrange(j, j + 2)[0] == s[j]);
        assert(s.subrange(j, j + 2)[1] == s[j + 1]);
        let all = scan_vars(s, open, close, i);
        let rest = scan_vars(s, open, close, j + 2);
        assert(all == seq![v] + rest);
        assert forall|k: int| 0 <= k < all.len() implies {
            let w = #[trigger] all[k];
            &&& w.len() >= 4
            &&& w[0] == open && w[1] == open
            &&& w[w.len() - 2] == close && w[w.len() - 1] == close
        } by {
            if k == 0 {
                assert(all[k] == v);
            } else {
                assert(all[k] == rest[k - 1]);
            }
        }
    } else {
        lemma_scan_vars_delimited(s, open, close, i + 1);
        assert(scan_vars(s, open, close, i) == scan_vars(s, open, close, i + 1));
    }
}

/// A text that holds `v` holds the first two characters of `v`.
proof fn lemma_holds_opening(text: Seq<char>, v: Seq<char>)
    requires
        has_substring(text, v),
        v.len() >= 2,
    ensures
        has_substring(text, v.subrange(0, 2)),
{
    let i = choose|i: int| occurs_at(text, v, i);
    assert(text.subrange(i, i + 2) =~= v.subrange(0, 2));
    assert(occurs_at(text, v.subrange(0, 2), i));
}

/// Law: a candidate keeps the placeholders of a template only if every
/// `%%NAME%%` and `{{name}}` placeholder the template has occurs in the
/// candidate verbatim, delimiters included.  In particular, a candidate
/// without "%%" keeps no template that has a `%%NAME%%` placeholder, and one
/// without "{{" keeps no template that has a `{{name}}` placeholder.
pub proof fn law_placeholders_kept_verbatim(original: Seq<char>, candidate: Seq<char>)
    ensures
        preserves_templates(original, candidate) ==> forall|k: int|
            0 <= k < percent_vars(original).len() ==> has_substring(
                candidate,
                #[trigger] percent_vars(original)[k],
            ),
        preserves_templates(original, candidate) ==> forall|k: int|
            0 <= k < mustache_vars(original).len() ==> has_substring(
                candidate,
                #[trigger] mustache_vars(original)[k],
            ),
        percent_vars(original).len() > 0 && !has_substring(candidate, seq!['%', '%'])
            ==> !preserves_templates(original, candidate),
        mustache_vars(original).len() > 0 && !has_substring(candidate, seq!['{', '{'])
            ==> !preserves_templates(original, candidate),
{
    lemma_scan_vars_delimited(original, '%', '%', 0);
    lemma_scan_vars_delimited(original, '{', '}', 0);
    if percent_vars(original).len() > 0 && preserves_templates(original, candidate) {
        let v = percent_vars(original)[0];
        assert(has_substring(candidate, v));
        lemma_holds_opening(candidate, v);
        assert(v.subrange(0, 2) =~= seq!['%', '%']);
    }
    if mustache_vars(original).len() > 0 && preserves_templates(original, candidate) {
        let v = mustache_vars(original)[0];
        assert(has_substring(candidate, v));
        lemma_holds_opening(candidate, v);
        assert(v.subrange(0, 2) =~= seq!['{', '{']);
    }
}

/// If `candidate` contains `original`, it keeps all of `original`'s placeholders.
pub proof fn lemma_containing_text_preserves(original: Seq<char>, candidate: Seq<char>)
    requires
        has_substring(candidate, original),
    ensures
        preserves_templates(original, candidate),
{
    lemma_scan_vars_substrings(original, '%', '%', 0);
    lemma_scan_vars_substrings(original, '{', '}', 0);
    assert forall|k: int| 0 <= k < percent_vars(original).len() implies has_substring(
        candidate,
        #[trigger] percent_vars(original)[k],
    ) by {
        lemma_substring_trans(candidate, original, percent_vars(original)[k]);
    }
    assert forall|k: int| 0 <= k < mustache_vars(original).len() implies has_substring(
        candidate,
        #[trigger] mustache_vars(original)[k],
    ) by {
        lemma_substring_trans(candidate, original, mustache_vars(original)[k]);
    }
}

/// Law: a template always preserves its own placeholders.
pub proof fn law_templates_preserved_reflexive(s: Seq<char>)
    ensures
        preserves_templates(s, s),
{
    assert(s.subrange(0, s.len() as int) =~= s);
    assert(occurs_at(s, s, 0));
    lemma_containing_text_preserves(s, s);
}

/// Law: adding text before and after a template keeps its placeholders.
pub proof fn law_templates_preserved_by_extension(s: Seq<char>, before: Seq<char>, after: Seq<char>)
    ensures
        preserves_templates(s, before + s + after),
{
    let c = before + s + after;
    assert(c.subrange(before.len() as int, (before.len() + s.len()) as int) =~= s);
    assert(occurs_at(c, s, before.len() as int));
    lemma_containing_text_preserves(s, c);
}

/// A copy of `v[a..b]`.
pub fn sub_vec(v: &Vec<char>, a: usize, b: usize) -> (r: Vec<char>)
    requires
        a <= b <= v.len(),
    ensures
        r@ == v@.subrange(a as int, b as int),
{
    let mut r: Vec<char> = Vec::new();
    let mut k = a;
    while k < b
        invariant
            a <= k <= b <= v.len(),
            r@ == v@.subrange(a as int, k as int),
        decreases b - k,
    {
        r.push(v[k]);
        assert(v@.subrange(a as int, k + 1) =~= v@.subrange(a as int, k as int).push(v@[k as int]));
        k = k + 1;
    }
    r
}

/// The variables of `v` found with the delimiters `open open` and `close close`.
pub fn scan_template_vars(v: &Vec<char>, open: char, close: char) -> (r: Vec<Vec<char>>)
    ensures
        views(r@) == scan_vars(v@, open, close, 0),
{
    let mut close_pat: Vec<char> = Vec::new();
    close_pat.push(close);
    close_pat.push(close);
    assert(close_pat@ =~= seq![close, close]);
    let mut out: Vec<Vec<char>> = Vec::new();
    let mut i: usize = 0;
    while i < v.len() && v.len() - i > 3
        invariant
            i <= v.len(),
            close_pat@ == seq![close, close],
            scan_vars(v@, open, close, 0) == views(out@) + scan_vars(v@, open, close, i as int),
        decreases v.len() - i,
    {
        if v[i] == open && v[i + 1] == open {
            match find_from(v, &close_pat, i + 2) {
                Some(j) => {
                    proof {
                        lemma_next_occurrence_found(v@, seq![close, close], i + 2);
                    }
                    let var = sub_vec(v, i, j + 2);
                    let ghost old_out = out@;
                    out.push(var);
                    assert(views(out@) =~= views(old_out).push(var@));
                    assert(scan_vars(v@, open, close, i as int) == seq![var@] + scan_vars(
                        v@,
                        open,
                        close,
                        j + 2,
                    ));
                    assert(views(old_out) + (seq![var@] + scan_vars(v@, open, close, j + 2))
                        =~= views(out@) + scan_vars(v@, open, close, j + 2));
                    i = j + 2;
                    continue ;
                },
                None => {},
            }
        }
        i = i + 1;
    }
    assert(scan_vars(v@, open, close, i as int) =~= Seq::<Seq<char>>::empty());
    assert(views(out@) + Seq::<Seq<char>>::empty() =~= views(out@));
    out
}

/// Whether every variable in `vars` occurs in `text`.
pub fn all_vars_present(vars: &Vec<Vec<char>>, text: &Vec<char>) -> (r: bool)
    ensures
        r == all_present(views(vars@), text@),
{
    let mut k: usize = 0;
    while k < vars.len()
        invariant
            k <= vars.len(),
            forall|m: int| 0 <= m < k ==> has_substring(text@, #[trigger] views(vars@)[m]),
        decreases vars.len() - k,
    {
        if !contains_chars(text, &vars[k]) {
            assert(views(vars@)[k as int] == vars@[k as int]@);
            return false;
        }
        assert(views(vars@)[k as int] == vars@[k as int]@);
        k = k + 1;
    }
    true
}

/// Checks that all `%%VAR%%` and `{{var}}` placeholders of `original` occur in `candidate`.
pub fn templates_preserved(original: &str, candidate: &str) -> (r: bool)
    ensures
        r == preserves_templates(original@, candidate@),
{
    let orig = chars_of(original);
    let cand = chars_of(candidate);
    let percent = scan_template_vars(&orig, '%', '%');
    if !all_vars_present(&percent, &cand) {
        return false;
    }
    let mustache = scan_template_vars(&orig, '{', '}');
    all_vars_present(&mustache, &cand)
}

/// Whether `v` is one of `vs`.
fn contains_vec(vs: &Vec<Vec<char>>, v: &Vec<char>) -> (r: bool)
    ensures
        r == views(vs@).contains(v@),
{
    let mut k: usize = 0;
    while k < vs.len()
        invariant
            k <= vs.len(),
            forall|m: int| 0 <= m < k ==> #[trigger] views(vs@)[m] != v@,
        decreases vs.len() - k,
    {
        if crate::text::chars_eq(&vs[k], v) {
            assert(views(vs@)[k as int] == v@);
            return true;
        }
        k = k + 1;
    }
    false
}

/// The distinct placeholders of `content`, `%%NAME%%` ones first, each once,
/// in order of first appearance.
pub fn extract_template_vars(content: &str) -> (r: Vec<String>)
    ensures
        r@.map_values(|s: String| s@) == template_vars(content@),
{
    let v = chars_of(content);
    let percent = scan_template_vars(&v, '%', '%');
    let mustache = scan_template_vars(&v, '{', '}');
    let mut items: Vec<Vec<char>> = Vec::new();
    let mut p: usize = 0;
    while p < percent.len()
        invariant
            p <= percent@.len(),
            views(items@) == views(percent@).take(p as int),
        decreases percent.len() - p,
    {
        let ghost old_items = items@;
        items.push(sub_vec(&percent[p], 0, percent[p].len()));
        assert(percent@[p as int]@.subrange(0, percent@[p as int]@.len() as int) =~= percent@[p as int]@);
        assert(views(items@) =~= views(old_items).push(views(percent@)[p as int]));
        assert(views(percent@).take(p + 1) =~= views(percent@).take(p as int).push(views(percent@)[p as int]));
        p = p + 1;
    }
    let mut m: usize = 0;
    while m < mustache.len()
        invariant
            m <= mustache@.len(),
            views(items@) == views(percent@) + views(mustache@).take(m as int),
        decreases mustache.len() - m,
    {
        let ghost old_items = items@;
        items.push(sub_vec(&mustache[m], 0, mustache[m].len()));
        assert(mustache@[m as int]@.subrange(0, mustache@[m as int]@.len() as int) =~= mustache@[m as int]@);
        assert(views(items@) =~= views(old_items).push(views(mustache@)[m as int]));
        assert(views(mustache@).take(m + 1) =~= views(mustache@).take(m as int).push(views(mustache@)[m as int]));
        m = m + 1;
    }
    let ghost all = percent_vars(content@) + mustache_vars(content@);
    assert(views(percent@).take(percent@.len() as int) =~= views(percent@));
    assert(views(mustache@).take(mustache@.len() as int) =~= views(mustache@));
    assert(views(items@) == all);
    let mut found: Vec<Vec<char>> = Vec::new();
    let mut out: Vec<String> = Vec::new();
    let total = items.len();
    let mut k: usize = 0;
    while k < total
        invariant
            total == items@.len(),
            k <= total,
            all == views(items@),
            views(found@) == dedup(all.take(k as int)),
            out@.map_values(|s: String| s@) == views(found@),
        decreases total - k,
    {
        let item: &Vec<char> = &items[k];
        assert(item@ == all[k as int]);
        assert(all.take(k + 1).drop_last() =~= all.take(k as int));
        assert(all.take(k + 1).last() == all[k as int]);
        if !contains_vec(&found, item) {
            let s = string_of(item);
            let ghost old_found = found@;
            let ghost old_out = out@;
            found.push(sub_vec(item, 0, item.len()));
            out.push(s);
            assert(item@.subrange(0, item@.len() as int) =~= item@);
            assert(views(found@) =~= views(old_found).push(item@));
            assert(out@.map_values(|s: String| s@) =~= old_out.map_values(|s: String| s@).push(
                item@,
            ));
        }
        k = k + 1;
    }
    assert(all.take(total as int) =~= all);
    out
}

} // verus!
