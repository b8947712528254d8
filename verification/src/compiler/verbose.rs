//! Annotating a TOML configuration with the optimization decisions that
//! shaped it: each decision becomes a block of `#` comment lines placed
//! above the lines of the setting it changed.
use vstd::prelude::*;
use crate::text::{
    is_prefix, has_substring, next_char, last_char, trim, lines, lines_from, lemma_next_char,
    chars_of, window_eq, window_starts_with, find_char, contains_chars, chars_eq, trim_window,
    substring, take_chars, concat3, strip_cr, no_newline, no_trailing_cr, lemma_lines_concat,
    lemma_lines_single, lemma_lines_no_newline,
};

verus! {

pub const ORCHESTRATION_PROMPTS_PREFIX: &'static str = "orchestration.prompts.";
pub const ORCHESTRATION_WORKERS_PREFIX: &'static str = "orchestration.workers.";

/// The part of `field` after its last dot (all of it when it has none).
pub open spec fn last_segment(field: Seq<char>) -> Seq<char> {
    field.subrange(last_char(field, '.') + 1, field.len() as int)
}

/// The worker name of a field path `orchestration.workers.NAME.REST`: the
/// third dot-separated part, when there are at least four.
pub open spec fn worker_segment(field: Seq<char>) -> Option<Seq<char>> {
    let rest = field.subrange(ORCHESTRATION_WORKERS_PREFIX@.len() as int, field.len() as int);
    let d = next_char(rest, '.', 0);
    if d < rest.len() {
        Some(rest.subrange(0, d))
    } else {
        None
    }
}

/// Whether the (trimmed) TOML line `line` belongs to the setting `field`.
pub open spec fn spec_should_annotate(line: Seq<char>, field: Seq<char>) -> bool {
    if field == "agent.system_prompt"@ {
        line == "[agent]"@ || is_prefix("system_prompt"@, line)
    } else if field == "agent.turn_depth"@ {
        is_prefix("turn_depth"@, line)
    } else if field == "agent.temperature"@ {
        is_prefix("temperature"@, line)
    } else if is_prefix(ORCHESTRATION_PROMPTS_PREFIX@, field) {
        line == "[orchestration.prompts]"@ || line == "[orchestration]"@ || is_prefix(
            last_segment(field),
            line,
        )
    } else if is_prefix(ORCHESTRATION_WORKERS_PREFIX@, field) {
        match worker_segment(field) {
            Some(w) => (has_substring(line, w) && has_substring(line, "preamble"@)) || line
                == "[orchestration.workers."@ + w + "]"@,
            None => false,
        }
    } else {
        false
    }
}

/// The position of the last `c` in `v`.
fn rfind_char(v: &Vec<char>, c: char) -> (r: Option<usize>)
    ensures
        match r {
            Some(i) => i as int == last_char(v@, c),
            None => last_char(v@, c) == -1,
        },
{
    let mut k = v.len();
    assert(v@.take(v@.len() as int) =~= v@);
    while k > 0
        invariant
            k <= v@.len(),
            last_char(v@, c) == last_char(v@.take(k as int), c),
        decreases k,
    {
        if v[k - 1] == c {
            return Some(k - 1);
        }
        assert(v@.take(k as int).drop_last() =~= v@.take(k - 1));
        k = k - 1;
    }
    None
}

/// Facts about `last_char`.
proof fn lemma_last_char(s: Seq<char>, c: char)
    ensures
        -1 <= last_char(s, c) < s.len(),
    decreases s.len(),
{
    if s.len() > 0 && s.last() != c {
        lemma_last_char(s.drop_last(), c);
    }
}

/// The characters of a string literal, as a vector.
fn lit(s: &str) -> (r: Vec<char>)
    ensures
        r@ == s@,
{
    chars_of(s)
}

/// Whether the (trimmed) TOML line `toml_line` belongs to the setting `field`.
pub fn should_annotate(toml_line: &str, field: &str) -> (r: bool)
    ensures
        r == spec_should_annotate(toml_line@, field@),
{
    let line = chars_of(toml_line);
    let f = chars_of(field);
    let ln = line.len();
    let fln = f.len();
    assert(line@.subrange(0, ln as int) =~= line@);
    assert(f@.subrange(0, fln as int) =~= f@);
    if window_eq(&f, 0, fln, &lit("agent.system_prompt")) {
        window_eq(&line, 0, ln, &lit("[agent]")) || window_starts_with(
            &line,
            0,
            ln,
            &lit("system_prompt"),
        )
    } else if window_eq(&f, 0, fln, &lit("agent.turn_depth")) {
        window_starts_with(&line, 0, ln, &lit("turn_depth"))
    } else if window_eq(&f, 0, fln, &lit("agent.temperature")) {
        window_starts_with(&line, 0, ln, &lit("temperature"))
    } else if window_starts_with(&f, 0, fln, &lit(ORCHESTRATION_PROMPTS_PREFIX)) {
        proof {
            lemma_last_char(f@, '.');
        }
        let start = match rfind_char(&f, '.') {
            Some(i) => i + 1,
            None => 0,
        };
        let key = crate::template::sub_vec(&f, start, fln);
        window_eq(&line, 0, ln, &lit("[orchestration.prompts]")) || window_eq(
            &line,
            0,
            ln,
            &lit("[orchestration]"),
        ) || window_starts_with(&line, 0, ln, &key)
    } else if window_starts_with(&f, 0, fln, &lit(ORCHESTRATION_WORKERS_PREFIX)) {
        let p = lit(ORCHESTRATION_WORKERS_PREFIX);
        let rest = crate::template::sub_vec(&f, p.len(), fln);
        let d = find_char(&rest, '.', 0);
        proof {
            lemma_next_char(rest@, '.', 0);
        }
        if d < rest.len() {
            let w = crate::template::sub_vec(&rest, 0, d);
            let ws = crate::text::string_of(&w);
            let bracketed = concat3("[orchestration.workers.", ws.as_str(), "]");
            let b = chars_of(bracketed.as_str());
            (contains_chars(&line, &w) && contains_chars(&line, &lit("preamble"))) || window_eq(
                &line,
                0,
                ln,
                &b,
            )
        } else {
            false
        }
    } else {
        false
    }
}

/// The annotations that go above the line `line`: the text of every entry
/// whose field the trimmed line belongs to, in entry order.
pub open spec fn annotations_for(line: Seq<char>, entries: Seq<(String, String)>) -> Seq<char>
    decreases entries.len(),
{
    if entries.len() == 0 {
        seq![]
    } else {
        annotations_for(line, entries.drop_last()) + if spec_should_annotate(
            trim(line),
            entries.last().0@,
        ) {
            entries.last().1@
        } else {
            seq![]
        }
    }
}

/// The annotated text of the lines `ls`: each line preceded by its
/// annotations and followed by a newline.
pub open spec fn annotate_lines(ls: Seq<Seq<char>>, entries: Seq<(String, String)>) -> Seq<char>
    decreases ls.len(),
{
    if ls.len() == 0 {
        seq![]
    } else {
        annotate_lines(ls.drop_last(), entries) + annotations_for(ls.last(), entries) + ls.last()
            + seq!['\n']
    }
}

/// The annotations of `line` for `entries`.
fn annotations_of(line: &str, entries: &Vec<(String, String)>) -> (r: String)
    ensures
        r@ == annotations_for(line@, entries@),
{
    let t = crate::text::trimmed(line);
    let mut r = String::new();
    let mut i: usize = 0;
    while i < entries.len()
        invariant
            i <= entries@.len(),
            t@ == trim(line@),
            r@ == annotations_for(line@, entries@.take(i as int)),
        decreases entries.len() - i,
    {
        assert(entries@.take(i + 1).drop_last() =~= entries@.take(i as int));
        assert(entries@.take(i + 1).last() == entries@[i as int]);
        if should_annotate(t.as_str(), entries[i].0.as_str()) {
            r.append(entries[i].1.as_str());
        } else {
            assert(r@ + Seq::<char>::empty() =~= r@);
        }
        i = i + 1;
    }
    assert(entries@.take(i as int) =~= entries@);
    r
}

/// Places each `(field, annotation)` entry's annotation above every line of
/// `base_toml` that belongs to the field; every line ends with a newline.
pub fn annotate_toml(base_toml: &str, entries: &Vec<(String, String)>) -> (r: String)
    ensures
        r@ == annotate_lines(lines(base_toml@), entries@),
{
    let v = chars_of(base_toml);
    let n = v.len();
    let mut result = String::new();
    let mut p: usize = 0;
    let ghost mut done: Seq<Seq<char>> = seq![];
    assert(lines(base_toml@) =~= done + lines_from(v@, 0));
    while p < n
        invariant
            v@ == base_toml@,
            n == v@.len(),
            p <= n,
            lines(base_toml@) == done + lines_from(v@, p as int),
            result@ == annotate_lines(done, entries@),
        decreases n - p,
    {
        let j = find_char(&v, '\n', p);
        proof {
            lemma_next_char(v@, '\n', p as int);
        }
        let mut end = j;
        if j < n && j > p && v[j - 1] == '\r' {
            end = j - 1;
        }
        let line = substring(base_toml, p, end);
        let ghost line_v = if j < n {
            strip_cr(v@.subrange(p as int, j as int))
        } else {
            v@.subrange(p as int, j as int)
        };
        proof {
            if j < n && j > p && v@[j - 1] == '\r' {
                assert(v@.subrange(p as int, j as int).drop_last() =~= v@.subrange(
                    p as int,
                    j - 1,
                ));
            }
            assert(line@ == line_v);
            assert(lines_from(v@, p as int) == seq![line_v] + lines_from(v@, j + 1));
        }
        let ann = annotations_of(line.as_str(), entries);
        result.append(ann.as_str());
        result.append(line.as_str());
        result.append("\n");
        proof {
            reveal_strlit("\n");
            let nd = done.push(line_v);
            assert(nd.drop_last() =~= done);
            assert(done + (seq![line_v] + lines_from(v@, j + 1)) =~= nd + lines_from(
                v@,
                j + 1,
            ));
            done = nd;
        }
        if j < n {
            p = j + 1;
        } else {
            proof {
                assert(lines_from(v@, j + 1) =~= Seq::<Seq<char>>::empty());
            }
            p = n;
        }
    }
    assert(lines_from(v@, p as int) =~= Seq::<Seq<char>>::empty());
    assert(done + Seq::<Seq<char>>::empty() =~= done);
    result
}

/// One optimization decision as an annotation shows it, with its scores
/// already written out as text.
#[derive(Debug, Clone)]
pub struct Annotation {
    pub optimizer: String,
    pub field: String,
    pub rationale: String,
    pub before: String,
    pub after: String,
    pub score_before: String,
    pub score_after: String,
    pub score_delta: String,
    pub confidence: String,
    /// Alternative prompts tried, each with its score.
    pub alternatives: Vec<(String, String)>,
}

/// The first `n` characters of `s`.
pub open spec fn preview(s: Seq<char>, n: nat) -> Seq<char> {
    s.take(if n < s.len() { n as int } else { s.len() as int })
}

/// The comment line of one alternative.
pub open spec fn alternative_line(alt: (String, String)) -> Seq<char> {
    "#   score="@ + alt.1@ + ": \""@ + preview(alt.0@, 60) + "...\"\n"@
}

/// The comment lines of the alternatives `alts`.
pub open spec fn alternative_lines(alts: Seq<(String, String)>) -> Seq<char>
    decreases alts.len(),
{
    if alts.len() == 0 {
        seq![]
    } else {
        alternative_lines(alts.drop_last()) + alternative_line(alts.last())
    }
}

/// The comment block that reports one optimization decision.
pub open spec fn spec_format_annotation(a: Annotation) -> Seq<char> {
    let header = "# OPTIMIZED by "@ + a.optimizer@ + ": "@ + a.field@ + "\n# Before score: "@
        + a.score_before@ + " \u{2192} After score: "@ + a.score_after@ + " ("@ + a.score_delta@
        + ")\n# Confidence: "@ + a.confidence@ + "\n# Rationale: "@ + a.rationale@ + "\n"@;
    let alts = if a.alternatives@.len() == 0 {
        Seq::empty()
    } else {
        "# Alternatives tried:\n"@ + alternative_lines(
            a.alternatives@.take(
                if a.alternatives@.len() < 5 {
                    a.alternatives@.len() as int
                } else {
                    5
                },
            ),
        )
    };
    let bp = preview(a.before@, 100);
    let ap = preview(a.after@, 100);
    let change = if bp != ap {
        "# Before: \""@ + bp + "...\"\n# After:  \""@ + ap + "...\"\n"@
    } else {
        Seq::empty()
    };
    header + alts + change + "#\n"@
}

/// The comment block that reports one optimization decision: what changed,
/// the scores, the rationale, up to five alternatives tried, and previews of
/// the text before and after when they differ.
pub fn format_annotation(a: &Annotation) -> (r: String)
    ensures
        r@ == spec_format_annotation(*a),
{
    let mut s = String::from_str("# OPTIMIZED by ");
    s.append(a.optimizer.as_str());
    s.append(": ");
    s.append(a.field.as_str());
    s.append("\n# Before score: ");
    s.append(a.score_before.as_str());
    s.append(" \u{2192} After score: ");
    s.append(a.score_after.as_str());
    s.append(" (");
    s.append(a.score_delta.as_str());
    s.append(")\n# Confidence: ");
    s.append(a.confidence.as_str());
    s.append("\n# Rationale: ");
    s.append(a.rationale.as_str());
    s.append("\n");
    let ghost header = s@;
    let ghost alts_text: Seq<char> = Seq::empty();
    if a.alternatives.len() > 0 {
        s.append("# Alternatives tried:\n");
        let count = if a.alternatives.len() < 5 {
            a.alternatives.len()
        } else {
            5
        };
        let ghost shown = a.alternatives@.take(count as int);
        let mut i: usize = 0;
        while i < count
            invariant
                count <= a.alternatives@.len(),
                i <= count,
                shown == a.alternatives@.take(count as int),
                s@ == header + "# Alternatives tried:\n"@ + alternative_lines(shown.take(i as int)),
            decreases count - i,
        {
            let alt = &a.alternatives[i];
            s.append("#   score=");
            s.append(alt.1.as_str());
            s.append(": \"");
            let pv = take_chars(alt.0.as_str(), 60);
            s.append(pv.as_str());
            s.append("...\"\n");
            assert(shown.take(i + 1).drop_last() =~= shown.take(i as int));
            assert(shown.take(i + 1).last() == shown[i as int]);
            i = i + 1;
        }
        assert(shown.take(count as int) =~= shown);
        proof {
            alts_text = "# Alternatives tried:\n"@ + alternative_lines(shown);
        }
    }
    assert(s@ == header + alts_text);
    let bp = take_chars(a.before.as_str(), 100);
    let ap = take_chars(a.after.as_str(), 100);
    if !crate::text::str_eq(bp.as_str(), ap.as_str()) {
        s.append("# Before: \"");
        s.append(bp.as_str());
        s.append("...\"\n# After:  \"");
        s.append(ap.as_str());
        s.append("...\"\n");
    }
    s.append("#\n");
    assert(s@ =~= spec_format_annotation(*a));
    s
}

/// A TOML comment line: it starts with `#`.
pub open spec fn is_comment(line: Seq<char>) -> bool {
    line.len() > 0 && line[0] == '#'
}

/// The lines of `ls` that are not comments, in order.
pub open spec fn code_lines(ls: Seq<Seq<char>>) -> Seq<Seq<char>>
    decreases ls.len(),
{
    if ls.len() == 0 {
        seq![]
    } else if is_comment(ls.last()) {
        code_lines(ls.drop_last())
    } else {
        code_lines(ls.drop_last()).push(ls.last())
    }
}

/// `t` is a block of whole comment lines: empty, or starting with `#`,
/// ending with a newline, and with `#` after every other newline.
pub open spec fn comment_block(t: Seq<char>) -> bool {
    t.len() == 0 || (t[0] == '#' && t.last() == '\n' && forall|i: int|
        0 <= i < t.len() - 1 && t[i] == '\n' ==> #[trigger] t[i + 1] == '#')
}

proof fn lemma_code_lines_concat(x: Seq<Seq<char>>, y: Seq<Seq<char>>)
    ensures
        code_lines(x + y) == code_lines(x) + code_lines(y),
    decreases y.len(),
{
    if y.len() == 0 {
        assert(x + y =~= x);
        assert(code_lines(x) + code_lines(y) =~= code_lines(x));
    } else {
        lemma_code_lines_concat(x, y.drop_last());
        assert((x + y).drop_last() =~= x + y.drop_last());
        assert((x + y).last() == y.last());
        if is_comment(y.last()) {
        } else {
            assert(code_lines(x) + code_lines(y.drop_last()).push(y.last()) =~= (code_lines(x)
                + code_lines(y.drop_last())).push(y.last()));
        }
    }
}

proof fn lemma_comment_block_concat(x: Seq<char>, y: Seq<char>)
    requires
        comment_block(x),
        comment_block(y),
    ensures
        comment_block(x + y),
{
    let t = x + y;
    if x.len() == 0 {
        assert(t =~= y);
    } else if y.len() == 0 {
        assert(t =~= x);
    } else {
        assert(t[0] == x[0]);
        assert(t.last() == y.last());
        assert forall|i: int| 0 <= i < t.len() - 1 && t[i] == '\n' implies #[trigger] t[i + 1] == '#' by {
            if i < x.len() - 1 {
                assert(t[i] == x[i]);
                assert(t[i + 1] == x[i + 1]);
            } else if i == x.len() - 1 {
                assert(t[i + 1] == y[0]);
            } else {
                let k = i - x.len();
                assert(t[i] == y[k]);
                assert(t[i + 1] == y[k + 1]);
            }
        }
    }
}

proof fn lemma_annotations_comment_block(line: Seq<char>, entries: Seq<(String, String)>)
    requires
        forall|i: int| 0 <= i < entries.len() ==> comment_block(#[trigger] entries[i].1@),
    ensures
        comment_block(annotations_for(line, entries)),
    decreases entries.len(),
{
    if entries.len() > 0 {
        lemma_annotations_comment_block(line, entries.drop_last());
        assert(entries.last() == entries[entries.len() - 1]);
        let tail = if spec_should_annotate(trim(line), entries.last().0@) {
            entries.last().1@
        } else {
            seq![]
        };
        lemma_comment_block_concat(annotations_for(line, entries.drop_last()), tail);
    }
}

/// Every line of a comment block, from a line start on, is a comment.
proof fn lemma_comment_block_lines(t: Seq<char>, p: int)
    requires
        comment_block(t),
        0 <= p <= t.len(),
        p == 0 || t[p - 1] == '\n',
    ensures
        code_lines(lines_from(t, p)) == Seq::<Seq<char>>::empty(),
    decreases t.len() - p,
{
    if p < t.len() {
        assert(t[p] == '#') by {
            if p > 0 {
                assert(t[(p - 1) + 1] == '#');
            }
        }
        lemma_next_char(t, '\n', p);
        let j = next_char(t, '\n', p);
        assert(j < t.len()) by {
            if j == t.len() {
                assert(t[t.len() - 1] == '\n');
            }
        }
        let raw = t.subrange(p, j);
        assert(raw.len() >= 1);
        assert(raw[0] == '#');
        let line = strip_cr(raw);
        assert(is_comment(line)) by {
            if raw.len() == 1 {
                assert(line == raw);
            } else {
                assert(line[0] == raw[0]);
            }
        }
        lemma_comment_block_lines(t, j + 1);
        let r = lines_from(t, p);
        assert(r == seq![line] + lines_from(t, j + 1));
        lemma_code_lines_concat(seq![line], lines_from(t, j + 1));
        assert(code_lines(seq![line]) =~= Seq::<Seq<char>>::empty()) by {
            assert(seq![line].drop_last() =~= Seq::<Seq<char>>::empty());
            assert(seq![line].last() == line);
            assert(code_lines(Seq::<Seq<char>>::empty()) =~= Seq::<Seq<char>>::empty());
        }
        assert(Seq::<Seq<char>>::empty() + Seq::<Seq<char>>::empty() =~= Seq::<Seq<char>>::empty());
    }
}

proof fn lemma_annotate_lines_ends(ls: Seq<Seq<char>>, entries: Seq<(String, String)>)
    ensures
        annotate_lines(ls, entries).len() == 0 || annotate_lines(ls, entries).last() == '\n',
    decreases ls.len(),
{
}

proof fn lemma_annotate_code_lines(ls: Seq<Seq<char>>, entries: Seq<(String, String)>)
    requires
        forall|i: int| 0 <= i < entries.len() ==> comment_block(#[trigger] entries[i].1@),
        forall|i: int| 0 <= i < ls.len() ==> no_newline(#[trigger] ls[i]) && no_trailing_cr(ls[i]),
    ensures
        code_lines(lines(annotate_lines(ls, entries))) == code_lines(ls),
    decreases ls.len(),
{
    if ls.len() == 0 {
        assert(lines(Seq::<char>::empty()) =~= Seq::<Seq<char>>::empty());
    } else {
        let d = ls.drop_last();
        let l = ls.last();
        assert(l == ls[ls.len() - 1]);
        lemma_annotate_code_lines(d, entries);
        let prev = annotate_lines(d, entries);
        let a = annotations_for(l, entries);
        lemma_annotate_lines_ends(d, entries);
        lemma_annotations_comment_block(l, entries);
        assert(annotate_lines(ls, entries) =~= prev + (a + l.push('\n')));
        lemma_lines_concat(prev, a + l.push('\n'));
        lemma_lines_concat(a, l.push('\n'));
        lemma_lines_single(l);
        lemma_comment_block_lines(a, 0);
        lemma_code_lines_concat(lines(prev), lines(a) + seq![l]);
        lemma_code_lines_concat(lines(a), seq![l]);
        let single = code_lines(seq![l]);
        assert(seq![l].drop_last() =~= Seq::<Seq<char>>::empty());
        assert(seq![l].last() == l);
        assert(code_lines(Seq::<Seq<char>>::empty()) =~= Seq::<Seq<char>>::empty());
        assert(Seq::<Seq<char>>::empty() + single =~= single);
        if is_comment(l) {
            assert(single =~= Seq::<Seq<char>>::empty());
            assert(code_lines(ls) == code_lines(d));
            assert(code_lines(d) + single =~= code_lines(d));
        } else {
            assert(single =~= seq![l]);
            assert(code_lines(ls) == code_lines(d).push(l));
            assert(code_lines(d) + single =~= code_lines(d).push(l));
        }
    }
}

/// Stripping the comment lines from an annotated TOML text gives the
/// non-comment lines of the base text: annotating only adds comments.
/// This holds when every annotation is a block of whole comment lines and
/// no line of the base text ends with a carriage return.
pub proof fn law_annotations_only_add_comments(base: Seq<char>, entries: Seq<(String, String)>)
    requires
        forall|i: int| 0 <= i < entries.len() ==> comment_block(#[trigger] entries[i].1@),
        forall|i: int| 0 <= i < lines(base).len() ==> no_trailing_cr(#[trigger] lines(base)[i]),
    ensures
        code_lines(lines(annotate_lines(lines(base), entries))) == code_lines(lines(base)),
{
    lemma_lines_no_newline(base);
    lemma_annotate_code_lines(lines(base), entries);
}

proof fn lemma_no_newline_concat(a: Seq<char>, b: Seq<char>)
    requires
        no_newline(a),
        no_newline(b),
    ensures
        no_newline(a + b),
{
    assert forall|i: int| 0 <= i < (a + b).len() implies (a + b)[i] != '\n' by {
        if i < a.len() {
            assert((a + b)[i] == a[i]);
        } else {
            assert((a + b)[i] == b[i - a.len()]);
        }
    }
}

/// A comment line followed by a newline is a comment block.
proof fn lemma_line_block(line: Seq<char>)
    requires
        is_comment(line),
        no_newline(line),
    ensures
        comment_block(line + seq!['\n']),
{
    let t = line + seq!['\n'];
    assert(t[0] == line[0]);
    assert forall|i: int| 0 <= i < t.len() - 1 && t[i] == '\n' implies #[trigger] t[i + 1] == '#' by {
        assert(t[i] == line[i]);
    }
}

/// The comment lines of the alternatives form a comment block.
proof fn lemma_alternative_lines_block(alts: Seq<(String, String)>)
    requires
        forall|i: int|
            0 <= i < alts.len() ==> no_newline(#[trigger] alts[i].1@) && no_newline(
                preview(alts[i].0@, 60),
            ),
    ensures
        comment_block(alternative_lines(alts)),
    decreases alts.len(),
{
    if alts.len() > 0 {
        let last = alts.last();
        assert(last == alts[alts.len() - 1]);
        lemma_alternative_lines_block(alts.drop_last());
        reveal_strlit("#   score=");
        reveal_strlit(": \"");
        reveal_strlit("...\"\n");
        let body = "#   score="@ + last.1@ + ": \""@ + preview(last.0@, 60) + "...\""@;
        reveal_strlit("...\"");
        assert(alternative_line(last) =~= body + seq!['\n']);
        lemma_no_newline_concat("#   score="@, last.1@);
        lemma_no_newline_concat("#   score="@ + last.1@, ": \""@);
        lemma_no_newline_concat("#   score="@ + last.1@ + ": \""@, preview(last.0@, 60));
        lemma_no_newline_concat(
            "#   score="@ + last.1@ + ": \""@ + preview(last.0@, 60),
            "...\""@,
        );
        assert(body[0] == '#');
        lemma_line_block(body);
        lemma_comment_block_concat(alternative_lines(alts.drop_last()), alternative_line(last));
    }
}

/// An annotation whose texts (and the previews it shows) hold no newline is
/// a block of whole comment lines.
pub proof fn law_annotation_is_comment_block(a: Annotation)
    requires
        no_newline(a.optimizer@),
        no_newline(a.field@),
        no_newline(a.score_before@),
        no_newline(a.score_after@),
        no_newline(a.score_delta@),
        no_newline(a.confidence@),
        no_newline(a.rationale@),
        no_newline(preview(a.before@, 100)),
        no_newline(preview(a.after@, 100)),
        forall|i: int|
            0 <= i < a.alternatives@.len() ==> no_newline(#[trigger] a.alternatives@[i].1@)
                && no_newline(preview(a.alternatives@[i].0@, 60)),
    ensures
        comment_block(spec_format_annotation(a)),
{
    reveal_strlit("# OPTIMIZED by ");
    reveal_strlit(": ");
    reveal_strlit("\n# Before score: ");
    reveal_strlit(" \u{2192} After score: ");
    reveal_strlit(" (");
    reveal_strlit(")\n# Confidence: ");
    reveal_strlit("\n# Rationale: ");
    reveal_strlit("\n");
    reveal_strlit("# Alternatives tried:\n");
    reveal_strlit("# Before: \"");
    reveal_strlit("...\"\n# After:  \"");
    reveal_strlit("...\"\n");
    reveal_strlit("#\n");
    let nl = seq!['\n'];
    let l1 = "# OPTIMIZED by "@ + a.optimizer@ + ": "@ + a.field@;
    let before_score = seq!['#', ' ', 'B', 'e', 'f', 'o', 'r', 'e', ' ', 's', 'c', 'o', 'r', 'e', ':', ' '];
    let l2 = before_score + a.score_before@ + " \u{2192} After score: "@ + a.score_after@ + " ("@
        + a.score_delta@ + seq![')'];
    let confidence = seq!['#', ' ', 'C', 'o', 'n', 'f', 'i', 'd', 'e', 'n', 'c', 'e', ':', ' '];
    let l3 = confidence + a.confidence@;
    let rationale = seq!['#', ' ', 'R', 'a', 't', 'i', 'o', 'n', 'a', 'l', 'e', ':', ' '];
    let l4 = rationale + a.rationale@;
    let header = "# OPTIMIZED by "@ + a.optimizer@ + ": "@ + a.field@ + "\n# Before score: "@
        + a.score_before@ + " \u{2192} After score: "@ + a.score_after@ + " ("@ + a.score_delta@
        + ")\n# Confidence: "@ + a.confidence@ + "\n# Rationale: "@ + a.rationale@ + "\n"@;
    assert(header =~= (l1 + nl) + (l2 + nl) + (l3 + nl) + (l4 + nl));
    lemma_no_newline_concat("# OPTIMIZED by "@, a.optimizer@);
    lemma_no_newline_concat("# OPTIMIZED by "@ + a.optimizer@, ": "@);
    lemma_no_newline_concat("# OPTIMIZED by "@ + a.optimizer@ + ": "@, a.field@);
    lemma_no_newline_concat(before_score, a.score_before@);
    lemma_no_newline_concat(before_score + a.score_before@, " \u{2192} After score: "@);
    lemma_no_newline_concat(
        before_score + a.score_before@ + " \u{2192} After score: "@,
        a.score_after@,
    );
    lemma_no_newline_concat(
        before_score + a.score_before@ + " \u{2192} After score: "@ + a.score_after@,
        " ("@,
    );
    lemma_no_newline_concat(
        before_score + a.score_before@ + " \u{2192} After score: "@ + a.score_after@ + " ("@,
        a.score_delta@,
    );
    lemma_no_newline_concat(
        before_score + a.score_before@ + " \u{2192} After score: "@ + a.score_after@ + " ("@
            + a.score_delta@,
        seq![')'],
    );
    lemma_no_newline_concat(confidence, a.confidence@);
    lemma_no_newline_concat(rationale, a.rationale@);
    assert(l1[0] == '#');
    assert(l2[0] == '#');
    assert(l3[0] == '#');
    assert(l4[0] == '#');
    lemma_line_block(l1);
    lemma_line_block(l2);
    lemma_line_block(l3);
    lemma_line_block(l4);
    lemma_comment_block_concat(l1 + nl, l2 + nl);
    lemma_comment_block_concat((l1 + nl) + (l2 + nl), l3 + nl);
    lemma_comment_block_concat((l1 + nl) + (l2 + nl) + (l3 + nl), l4 + nl);
    let alts = if a.alternatives@.len() == 0 {
        Seq::empty()
    } else {
        "# Alternatives tried:\n"@ + alternative_lines(
            a.alternatives@.take(
                if a.alternatives@.len() < 5 {
                    a.alternatives@.len() as int
                } else {
                    5
                },
            ),
        )
    };
    if a.alternatives@.len() > 0 {
        let shown = a.alternatives@.take(
            if a.alternatives@.len() < 5 {
                a.alternatives@.len() as int
            } else {
                5
            },
        );
        assert forall|i: int| 0 <= i < shown.len() implies no_newline(#[trigger] shown[i].1@)
            && no_newline(preview(shown[i].0@, 60)) by {
            assert(shown[i] == a.alternatives@[i]);
            assert(no_newline(a.alternatives@[i].1@));
        }
        lemma_alternative_lines_block(shown);
        let tried = seq!['#', ' ', 'A', 'l', 't', 'e', 'r', 'n', 'a', 't', 'i', 'v', 'e', 's', ' ', 't', 'r', 'i', 'e', 'd', ':'];
        assert("# Alternatives tried:\n"@ =~= tried + nl);
        lemma_line_block(tried);
        lemma_comment_block_concat(tried + nl, alternative_lines(shown));
    }
    lemma_comment_block_concat(header, alts);
    let bp = preview(a.before@, 100);
    let ap = preview(a.after@, 100);
    let change = if bp != ap {
        "# Before: \""@ + bp + "...\"\n# After:  \""@ + ap + "...\"\n"@
    } else {
        Seq::empty()
    };
    if bp != ap {
        let quote_end = seq!['.', '.', '.', '"'];
        let before_open = seq!['#', ' ', 'B', 'e', 'f', 'o', 'r', 'e', ':', ' ', '"'];
        let after_open = seq!['#', ' ', 'A', 'f', 't', 'e', 'r', ':', ' ', ' ', '"'];
        let lb = before_open + bp + quote_end;
        let la = after_open + ap + quote_end;
        assert(change =~= (lb + nl) + (la + nl));
        lemma_no_newline_concat(before_open, bp);
        lemma_no_newline_concat(before_open + bp, quote_end);
        lemma_no_newline_concat(after_open, ap);
        lemma_no_newline_concat(after_open + ap, quote_end);
        assert(lb[0] == '#');
        assert(la[0] == '#');
        lemma_line_block(lb);
        lemma_line_block(la);
        lemma_comment_block_concat(lb + nl, la + nl);
    }
    lemma_comment_block_concat(header + alts, change);
    let last = seq!['#'];
    assert("#\n"@ =~= last + nl);
    lemma_line_block(last);
    lemma_comment_block_concat(header + alts + change, "#\n"@);
    assert(spec_format_annotation(a) =~= header + alts + change + "#\n"@);
}

} // verus!
