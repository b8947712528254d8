//! What the optimizers exchange with the code that runs the agent and talks
//! to the model, and what an optimization run produces.
//!
//! Scores are non-negative `f64` values; the library holds each one as its
//! IEEE-754 bit pattern (`f64::to_bits`), which orders non-negative numbers
//! as the numbers themselves are ordered.  A configuration produced during a
//! run is described by the edits that turn the run's input configuration
//! into it.
use vstd::prelude::*;
use crate::config::schema::AuraConfig;
use crate::optimizer::field::{OptimizableField, spec_get_value, spec_can_set, same_target,
    same_settings};

verus! {

/// How one scenario went when a configuration was evaluated: the input the
/// agent got, its answer, the aggregate score (and that score written with
/// two decimals), and whether the scenario passed.
#[derive(Debug)]
pub struct ScenarioOutcome {
    pub input: String,
    pub output: String,
    pub score_bits: u64,
    pub score_label: String,
    pub passed: bool,
}

/// The outcome of evaluating one configuration over the dataset: the
/// number the caller gave the evaluation, one entry per scenario in dataset
/// order, and the average score.
#[derive(Debug)]
pub struct Evaluation {
    pub run: usize,
    pub outcomes: Vec<ScenarioOutcome>,
    pub average_bits: u64,
}

/// Setting `field` to `value`.
#[derive(Debug)]
pub struct Edit {
    pub field: OptimizableField,
    pub value: String,
}

impl View for Edit {
    type V = (OptimizableField, Seq<char>);

    open spec fn view(&self) -> (OptimizableField, Seq<char>) {
        (self.field, self.value@)
    }
}

impl Clone for Edit {
    fn clone(&self) -> (r: Self)
        ensures
            r == *self,
    {
        Edit { field: self.field.clone(), value: self.value.clone() }
    }
}

/// The views of a list of edits.
pub open spec fn edits_view(v: Seq<Edit>) -> Seq<(OptimizableField, Seq<char>)> {
    v.map_values(|e: Edit| e@)
}

/// A copy of a list of edits.
pub fn clone_edits(v: &Vec<Edit>) -> (r: Vec<Edit>)
    ensures
        r@ == v@,
{
    let mut r: Vec<Edit> = Vec::new();
    let mut i: usize = 0;
    while i < v.len()
        invariant
            i <= v@.len(),
            r@ == v@.take(i as int),
        decreases v.len() - i,
    {
        r.push(v[i].clone());
        assert(r@ =~= v@.take(i + 1));
        i = i + 1;
    }
    assert(v@.take(i as int) =~= v@);
    r
}

/// A copy of a list of fields.
pub fn clone_fields(v: &Vec<OptimizableField>) -> (r: Vec<OptimizableField>)
    ensures
        r@ == v@,
{
    let mut r: Vec<OptimizableField> = Vec::new();
    let mut i: usize = 0;
    while i < v.len()
        invariant
            i <= v@.len(),
            r@ == v@.take(i as int),
        decreases v.len() - i,
    {
        r.push(v[i].clone());
        assert(r@ =~= v@.take(i + 1));
        i = i + 1;
    }
    assert(v@.take(i as int) =~= v@);
    r
}

/// The text of `f` in the configuration that `edits` make of `base`: the
/// last edit of the same field wins when `base` lets that field be set.
pub open spec fn edited_value(
    base: AuraConfig,
    edits: Seq<(OptimizableField, Seq<char>)>,
    f: OptimizableField,
) -> Option<Seq<char>>
    decreases edits.len(),
{
    if edits.len() == 0 {
        spec_get_value(f, base)
    } else if same_target(edits.last().0, f) && spec_can_set(edits.last().0, base) {
        Some(edits.last().1)
    } else {
        edited_value(base, edits.drop_last(), f)
    }
}

/// Whether `f` and `g` name the same stored text.
pub fn same_field(f: &OptimizableField, g: &OptimizableField) -> (r: bool)
    ensures
        r == same_target(*f, *g),
{
    match (f, g) {
        (OptimizableField::AgentSystemPrompt, OptimizableField::AgentSystemPrompt) => true,
        (OptimizableField::OrchestrationPrompt(p), OptimizableField::OrchestrationPrompt(q)) => {
            let a = crate::config::schema::prompt_key_of(p.as_str());
            let b = crate::config::schema::prompt_key_of(q.as_str());
            crate::text::str_eq(a.as_str(), b.as_str())
        },
        (OptimizableField::WorkerPreamble(n), OptimizableField::WorkerPreamble(m)) =>
            crate::text::str_eq(n.as_str(), m.as_str()),
        _ => false,
    }
}

/// Whether setting `f` in `config` stores the new text.
pub fn can_set(f: &OptimizableField, config: &AuraConfig) -> (r: bool)
    ensures
        r == spec_can_set(*f, *config),
{
    match f {
        OptimizableField::AgentSystemPrompt => true,
        OptimizableField::OrchestrationPrompt(_) => config.orchestration.is_some(),
        OptimizableField::WorkerPreamble(_) => f.get_value(config).is_some(),
    }
}

/// The text of `f` in the configuration that `edits` make of `base`.
pub fn read_edited(base: &AuraConfig, edits: &Vec<Edit>, f: &OptimizableField) -> (r: Option<
    String,
>)
    ensures
        match r {
            Some(v) => edited_value(*base, edits_view(edits@), *f) == Some(v@),
            None => edited_value(*base, edits_view(edits@), *f) is None,
        },
{
    let mut i: usize = edits.len();
    assert(edits@.take(i as int) =~= edits@);
    while i > 0
        invariant
            i <= edits@.len(),
            edited_value(*base, edits_view(edits@), *f) == edited_value(
                *base,
                edits_view(edits@.take(i as int)),
                *f,
            ),
        decreases i,
    {
        let e = &edits[i - 1];
        assert(edits_view(edits@.take(i as int)).last() == e@);
        assert(edits_view(edits@.take(i as int)).drop_last() =~= edits_view(
            edits@.take(i - 1),
        ));
        if same_field(&e.field, f) && can_set(&e.field, base) {
            return Some(e.value.clone());
        }
        i = i - 1;
    }
    assert(edits_view(edits@.take(0)) =~= Seq::<(OptimizableField, Seq<char>)>::empty());
    match f.get_value(base) {
        Some(v) => Some(crate::text::owned(v)),
        None => None,
    }
}

/// Configurations with the same settings let the same fields be set.
proof fn lemma_can_set_kept(a: AuraConfig, b: AuraConfig, f: OptimizableField)
    requires
        same_settings(a, b),
    ensures
        spec_can_set(f, b) == spec_can_set(f, a),
{
    match f {
        OptimizableField::WorkerPreamble(n) => {
            if a.orchestration is Some {
                let ao = a.orchestration.unwrap();
                let bo = b.orchestration.unwrap();
                crate::config::schema::lemma_has_key_contains(ao.workers@, n@);
                crate::config::schema::lemma_has_key_contains(bo.workers@, n@);
                if ao.worker is Some {
                    crate::config::schema::lemma_has_key_contains(ao.worker.unwrap()@, n@);
                    crate::config::schema::lemma_has_key_contains(bo.worker.unwrap()@, n@);
                }
            }
        },
        _ => {},
    }
}

/// Applies `edits` to `config` in order.
pub fn apply_edits(config: &mut AuraConfig, edits: &Vec<Edit>)
    ensures
        forall|f: OptimizableField|
            #[trigger] spec_get_value(f, *final(config)) == edited_value(
                *old(config),
                edits_view(edits@),
                f,
            ),
        same_settings(*old(config), *final(config)),
{
    let ghost base = *config;
    let mut i: usize = 0;
    while i < edits.len()
        invariant
            i <= edits@.len(),
            same_settings(base, *config),
            forall|f: OptimizableField|
                #[trigger] spec_get_value(f, *config) == edited_value(
                    base,
                    edits_view(edits@.take(i as int)),
                    f,
                ),
        decreases edits.len() - i,
    {
        let e = &edits[i];
        let ghost before = *config;
        e.field.set_value(config, e.value.clone());
        proof {
            lemma_can_set_kept(base, before, e.field);
            crate::optimizer::field::lemma_same_settings_trans(base, before, *config);
            let ev = edits_view(edits@.take(i + 1));
            assert(ev.last() == e@);
            assert(ev.drop_last() =~= edits_view(edits@.take(i as int)));
            assert forall|f: OptimizableField| #[trigger]
                spec_get_value(f, *config) == edited_value(base, ev, f) by {
                if same_target(e.field, f) && spec_can_set(e.field, before) {
                    crate::optimizer::field::lemma_same_target_value(e.field, f, *config);
                }
            }
        }
        i = i + 1;
    }
    assert(edits@.take(i as int) =~= edits@);
}

/// The texts of a list of strings.
pub open spec fn strings_view(v: Seq<String>) -> Seq<Seq<char>> {
    v.map_values(|s: String| s@)
}

/// An evaluated configuration: the edits that make it, its average score,
/// the number of the evaluation that scored it and notes on where it came from.
#[derive(Debug)]
pub struct ScoredCandidate {
    pub edits: Vec<Edit>,
    pub score_bits: u64,
    pub run: usize,
    pub notes: Vec<String>,
}

/// What a `ScoredCandidate` holds, as plain values.
#[verifier::ext_equal]
pub struct CandidateView {
    pub edits: Seq<(OptimizableField, Seq<char>)>,
    pub score: u64,
    pub run: nat,
    pub notes: Seq<Seq<char>>,
}

impl View for ScoredCandidate {
    type V = CandidateView;

    open spec fn view(&self) -> CandidateView {
        CandidateView {
            edits: edits_view(self.edits@),
            score: self.score_bits,
            run: self.run as nat,
            notes: strings_view(self.notes@),
        }
    }
}

/// The views of a list of candidates.
pub open spec fn cands_view(v: Seq<ScoredCandidate>) -> Seq<CandidateView> {
    v.map_values(|c: ScoredCandidate| c@)
}

/// Why an optimization step was taken, in the terms its report states it.
#[derive(Debug, Clone, Copy, PartialEq, Eq, Structural)]
pub enum Rationale {
    /// Few-shot examples were injected, this many of them.
    FewShot { examples: usize },
    /// The model proposed this many candidate prompts.
    Instruction { proposed: usize },
}

/// A single optimization decision recorded for the verbose output.
#[derive(Debug)]
pub struct OptimizationLogEntry {
    pub optimizer: String,
    pub field: String,
    pub before: String,
    pub after: String,
    pub score_before_bits: u64,
    pub score_after_bits: u64,
    pub rationale: Rationale,
    pub alternatives: Vec<(String, u64)>,
}

/// What an `OptimizationLogEntry` holds, as plain values.
#[verifier::ext_equal]
pub struct LogView {
    pub optimizer: Seq<char>,
    pub field: Seq<char>,
    pub before: Seq<char>,
    pub after: Seq<char>,
    pub score_before: u64,
    pub score_after: u64,
    pub rationale: Rationale,
    pub alternatives: Seq<(Seq<char>, u64)>,
}

/// The views of a list of alternatives.
pub open spec fn alts_view(v: Seq<(String, u64)>) -> Seq<(Seq<char>, u64)> {
    v.map_values(|a: (String, u64)| (a.0@, a.1))
}

impl View for OptimizationLogEntry {
    type V = LogView;

    open spec fn view(&self) -> LogView {
        LogView {
            optimizer: self.optimizer@,
            field: self.field@,
            before: self.before@,
            after: self.after@,
            score_before: self.score_before_bits,
            score_after: self.score_after_bits,
            rationale: self.rationale,
            alternatives: alts_view(self.alternatives@),
        }
    }
}

/// The views of a list of log entries.
pub open spec fn logs_view(v: Seq<OptimizationLogEntry>) -> Seq<LogView> {
    v.map_values(|e: OptimizationLogEntry| e@)
}

/// The full output of an optimization run.
#[derive(Debug)]
pub struct OptimizationResult {
    pub best_edits: Vec<Edit>,
    pub best_score_bits: u64,
    pub candidates: Vec<ScoredCandidate>,
    pub baseline_score_bits: u64,
    pub optimization_log: Vec<OptimizationLogEntry>,
}

/// What an `OptimizationResult` holds, as plain values.
#[verifier::ext_equal]
pub struct ResultView {
    pub best_edits: Seq<(OptimizableField, Seq<char>)>,
    pub best_score: u64,
    pub candidates: Seq<CandidateView>,
    pub baseline_score: u64,
    pub log: Seq<LogView>,
}

impl View for OptimizationResult {
    type V = ResultView;

    open spec fn view(&self) -> ResultView {
        ResultView {
            best_edits: edits_view(self.best_edits@),
            best_score: self.best_score_bits,
            candidates: cands_view(self.candidates@),
            baseline_score: self.baseline_score_bits,
            log: logs_view(self.optimization_log@),
        }
    }
}

/// A search result keeps the best candidate it found: its best score is at
/// least the baseline score, no candidate scored higher, and a candidate
/// made by its best edits has its best score.
pub open spec fn result_keeps_best(r: ResultView) -> bool {
    &&& r.best_score >= r.baseline_score
    &&& forall|i: int| 0 <= i < r.candidates.len() ==> (#[trigger] r.candidates[i]).score <= r.best_score
    &&& exists|i: int|
        0 <= i < r.candidates.len() && (#[trigger] r.candidates[i]).edits == r.best_edits
            && r.candidates[i].score == r.best_score
}

/// `e` is `start` followed by edits of the fields `fields` only.
pub open spec fn extends_with(
    e: Seq<(OptimizableField, Seq<char>)>,
    start: Seq<(OptimizableField, Seq<char>)>,
    fields: Seq<OptimizableField>,
) -> bool {
    &&& start.len() <= e.len()
    &&& e.subrange(0, start.len() as int) == start
    &&& forall|i: int| start.len() <= i < e.len() ==> fields.contains(#[trigger] e[i].0)
}

/// Edits extend themselves.
pub proof fn lemma_extends_refl(s: Seq<(OptimizableField, Seq<char>)>, fields: Seq<OptimizableField>)
    ensures
        extends_with(s, s, fields),
{
    assert(s.subrange(0, s.len() as int) =~= s);
}

/// One more edit of a target field keeps the extension.
pub proof fn lemma_extends_push(
    e: Seq<(OptimizableField, Seq<char>)>,
    start: Seq<(OptimizableField, Seq<char>)>,
    fields: Seq<OptimizableField>,
    x: (OptimizableField, Seq<char>),
)
    requires
        extends_with(e, start, fields),
        fields.contains(x.0),
    ensures
        extends_with(e.push(x), start, fields),
{
    assert(e.push(x).subrange(0, start.len() as int) =~= e.subrange(0, start.len() as int));
    assert forall|i: int| start.len() <= i < e.push(x).len() implies fields.contains(
        #[trigger] e.push(x)[i].0,
    ) by {
        if i < e.len() {
            assert(e.push(x)[i] == e[i]);
        }
    }
}

/// Extending an extension extends the first.
pub proof fn lemma_extends_trans(
    a: Seq<(OptimizableField, Seq<char>)>,
    b: Seq<(OptimizableField, Seq<char>)>,
    c: Seq<(OptimizableField, Seq<char>)>,
    fields: Seq<OptimizableField>,
)
    requires
        extends_with(b, a, fields),
        extends_with(c, b, fields),
    ensures
        extends_with(c, a, fields),
{
    assert(c.subrange(0, a.len() as int) =~= c.subrange(0, b.len() as int).subrange(0, a.len() as int));
    assert forall|i: int| a.len() <= i < c.len() implies fields.contains(#[trigger] c[i].0) by {
        if i < b.len() {
            assert(c[i] == c.subrange(0, b.len() as int)[i]);
            assert(b[i].0 == c[i].0);
        }
    }
}

/// The scores of `s` never increase along it.
pub open spec fn sorted_by_score(s: Seq<CandidateView>) -> bool {
    forall|i: int, j: int| 0 <= i < j < s.len() ==> s[i].score >= s[j].score
}

/// A result lists its candidates by decreasing score, the first of them
/// with the best score.
pub open spec fn result_sorted(r: ResultView) -> bool {
    &&& r.candidates.len() >= 1
    &&& sorted_by_score(r.candidates)
    &&& r.candidates[0].score == r.best_score
}

/// `s`, ordered by decreasing score, with `x` placed after every entry
/// whose score is at least its own.
pub open spec fn insert_by_score(s: Seq<CandidateView>, x: CandidateView) -> Seq<CandidateView>
    decreases s.len(),
{
    if s.len() == 0 || s.last().score >= x.score {
        s.push(x)
    } else {
        insert_by_score(s.drop_last(), x).push(s.last())
    }
}

/// `s` sorted by decreasing score; entries with equal scores keep their
/// order (a stable sort).
pub open spec fn sort_by_score(s: Seq<CandidateView>) -> Seq<CandidateView>
    decreases s.len(),
{
    if s.len() == 0 {
        s
    } else {
        insert_by_score(sort_by_score(s.drop_last()), s.last())
    }
}

/// Inserting into a list ordered by decreasing score keeps it ordered and
/// adds exactly `x`.
pub proof fn lemma_insert_by_score(s: Seq<CandidateView>, x: CandidateView)
    requires
        forall|i: int, j: int| 0 <= i < j < s.len() ==> s[i].score >= s[j].score,
    ensures
        insert_by_score(s, x).len() == s.len() + 1,
        forall|i: int, j: int|
            0 <= i < j < s.len() + 1 ==> insert_by_score(s, x)[i].score >= insert_by_score(
                s,
                x,
            )[j].score,
        forall|y: CandidateView|
            #[trigger] insert_by_score(s, x).contains(y) <==> (s.contains(y) || y == x),
    decreases s.len(),
{
    let r = insert_by_score(s, x);
    if s.len() == 0 || s.last().score >= x.score {
        assert forall|y: CandidateView| r.contains(y) <==> (s.contains(y) || y == x) by {
            if r.contains(y) {
                let k = choose|k: int| 0 <= k < r.len() && r[k] == y;
                if k < s.len() {
                    assert(s[k] == y);
                }
            }
            if s.contains(y) {
                let k = choose|k: int| 0 <= k < s.len() && s[k] == y;
                assert(r[k] == y);
            }
            if y == x {
                assert(r[s.len() as int] == x);
            }
        }
    } else {
        let d = s.drop_last();
        lemma_insert_by_score(d, x);
        let rd = insert_by_score(d, x);
        assert(r == rd.push(s.last()));
        assert forall|i: int, j: int| 0 <= i < j < s.len() + 1 implies r[i].score >= r[j].score by {
            if j == s.len() {
                if rd[i] == x {
                } else {
                    assert(rd.contains(rd[i]));
                    assert(d.contains(rd[i]));
                    let k = choose|k: int| 0 <= k < d.len() && d[k] == rd[i];
                    assert(s[k] == d[k]);
                }
            }
        }
        assert forall|y: CandidateView| r.contains(y) <==> (s.contains(y) || y == x) by {
            if r.contains(y) {
                let k = choose|k: int| 0 <= k < r.len() && r[k] == y;
                if k < rd.len() {
                    assert(rd[k] == y);
                    assert(rd.contains(y));
                    if d.contains(y) {
                        let q = choose|q: int| 0 <= q < d.len() && d[q] == y;
                        assert(s[q] == y);
                    }
                } else {
                    assert(s[s.len() - 1] == y);
                }
            }
            if s.contains(y) {
                let k = choose|k: int| 0 <= k < s.len() && s[k] == y;
                if k < d.len() {
                    assert(d[k] == y);
                    assert(rd.contains(y));
                    let q = choose|q: int| 0 <= q < rd.len() && rd[q] == y;
                    assert(r[q] == y);
                } else {
                    assert(r[rd.len() as int] == y);
                }
            }
            if y == x {
                assert(rd.contains(x));
                let q = choose|q: int| 0 <= q < rd.len() && rd[q] == x;
                assert(r[q] == x);
            }
        }
    }
}

/// Sorting gives a list ordered by decreasing score with the same entries.
pub proof fn lemma_sort_by_score(s: Seq<CandidateView>)
    ensures
        sort_by_score(s).len() == s.len(),
        forall|i: int, j: int|
            0 <= i < j < s.len() ==> sort_by_score(s)[i].score >= sort_by_score(s)[j].score,
        forall|y: CandidateView| #[trigger] sort_by_score(s).contains(y) <==> s.contains(y),
    decreases s.len(),
{
    if s.len() > 0 {
        let d = s.drop_last();
        lemma_sort_by_score(d);
        lemma_insert_by_score(sort_by_score(d), s.last());
        assert forall|y: CandidateView| s.contains(y) <==> (d.contains(y) || y == s.last()) by {
            if s.contains(y) {
                let k = choose|k: int| 0 <= k < s.len() && s[k] == y;
                if k < d.len() {
                    assert(d[k] == y);
                }
            }
            if d.contains(y) {
                let k = choose|k: int| 0 <= k < d.len() && d[k] == y;
                assert(s[k] == y);
            }
            if y == s.last() {
                assert(s[s.len() - 1] == y);
            }
        }
    }
}

/// Inserting where the scores to the left are at least `x`'s and those to
/// the right are smaller.
proof fn lemma_insert_by_score_at(s: Seq<CandidateView>, x: CandidateView, p: int)
    requires
        0 <= p <= s.len(),
        p == 0 || s[p - 1].score >= x.score,
        forall|j: int| p <= j < s.len() ==> s[j].score < x.score,
    ensures
        insert_by_score(s, x) == s.insert(p, x),
    decreases s.len(),
{
    if s.len() == 0 || s.last().score >= x.score {
        assert(s.insert(p, x) =~= s.push(x));
    } else {
        lemma_insert_by_score_at(s.drop_last(), x, p);
        assert(s.drop_last().insert(p, x).push(s.last()) =~= s.insert(p, x));
    }
}

/// Sorts candidates by decreasing score, keeping the order of equal scores.
pub fn sort_candidates(v: Vec<ScoredCandidate>) -> (r: Vec<ScoredCandidate>)
    ensures
        cands_view(r@) == sort_by_score(cands_view(v@)),
{
    let ghost orig = v@;
    let n = v.len();
    assert(orig.len() == n);
    let mut rest = v;
    let mut r: Vec<ScoredCandidate> = Vec::new();
    let mut k: usize = 0;
    assert(orig.take(0) =~= Seq::<ScoredCandidate>::empty());
    assert(cands_view(Seq::<ScoredCandidate>::empty()) =~= Seq::<CandidateView>::empty());
    assert(orig.skip(0) =~= orig);
    while rest.len() > 0
        invariant
            k <= orig.len(),
            orig.len() <= usize::MAX,
            rest@ == orig.skip(k as int),
            cands_view(r@) == sort_by_score(cands_view(orig.take(k as int))),
        decreases rest.len(),
    {
        let x = rest.remove(0);
        assert(x == orig[k as int]);
        let mut p: usize = r.len();
        while p > 0 && r[p - 1].score_bits < x.score_bits
            invariant
                p <= r@.len(),
                forall|j: int| p <= j < r@.len() ==> r@[j].score_bits < x.score_bits,
            decreases p,
        {
            p = p - 1;
        }
        let ghost before = cands_view(r@);
        proof {
            lemma_insert_by_score_at(before, x@, p as int);
        }
        r.insert(p, x);
        proof {
            assert(cands_view(r@) =~= before.insert(p as int, x@));
            let t = cands_view(orig.take(k + 1));
            assert(t.drop_last() =~= cands_view(orig.take(k as int)));
            assert(t.last() == x@);
            assert(orig.skip(k + 1) =~= rest@);
        }
        k = k + 1;
    }
    assert(orig.take(k as int) =~= orig);
    r
}

/// Whether each outcome passed, in order.
pub open spec fn passed_flags(os: Seq<ScenarioOutcome>) -> Seq<bool> {
    os.map_values(|o: ScenarioOutcome| o.passed)
}

/// The positions of the first (at most three) scenarios that failed.
pub open spec fn first_failures(os: Seq<ScenarioOutcome>) -> Seq<int> {
    let all = crate::optimizer::instruction::positions(passed_flags(os), false);
    all.take(if all.len() < 3 { all.len() as int } else { 3 })
}

/// How a failed scenario is shown to the model.
pub open spec fn failure_text(o: ScenarioOutcome) -> Seq<char> {
    "Input: "@ + o.input@ + "\nOutput: "@ + o.output@ + "\nScore: "@ + o.score_label@
}

/// The failures at positions `idx`, separated by `---` lines.
pub open spec fn join_failures(os: Seq<ScenarioOutcome>, idx: Seq<int>) -> Seq<char>
    decreases idx.len(),
{
    if idx.len() == 0 {
        seq![]
    } else if idx.len() == 1 {
        failure_text(os[idx[0]])
    } else {
        join_failures(os, idx.drop_last()) + "\n---\n"@ + failure_text(os[idx.last()])
    }
}

/// The failure summary the model sees: the first three failed scenarios.
pub open spec fn failure_summary(os: Seq<ScenarioOutcome>) -> Seq<char> {
    join_failures(os, first_failures(os))
}

/// The passed flags of `os`.
fn flags_of(os: &Vec<ScenarioOutcome>) -> (r: Vec<bool>)
    ensures
        r@ == passed_flags(os@),
{
    let mut r: Vec<bool> = Vec::new();
    let mut i: usize = 0;
    while i < os.len()
        invariant
            i <= os@.len(),
            r@ == passed_flags(os@.take(i as int)),
        decreases os.len() - i,
    {
        r.push(os[i].passed);
        assert(passed_flags(os@.take(i + 1)) =~= r@);
        i = i + 1;
    }
    assert(os@.take(i as int) =~= os@);
    r
}

/// The positions of the first (at most three) failed scenarios.
pub fn failed_positions(os: &Vec<ScenarioOutcome>) -> (r: Vec<usize>)
    ensures
        r@.map_values(|i: usize| i as int) == first_failures(os@),
        forall|j: int| 0 <= j < r@.len() ==> r@[j] < os@.len(),
{
    let flags = flags_of(os);
    let r = crate::optimizer::instruction::positions_of(&flags, false, 3);
    proof {
        let all = crate::optimizer::instruction::positions(passed_flags(os@), false);
        crate::optimizer::instruction::lemma_positions_bound(passed_flags(os@), false);
        let ff = first_failures(os@);
        assert(r@.map_values(|i: usize| i as int).len() == r@.len());
        assert(ff.len() <= all.len());
        assert forall|j: int| 0 <= j < r@.len() implies r@[j] < os@.len() by {
            assert(r@.map_values(|i: usize| i as int)[j] == r@[j] as int);
            assert(ff[j] == all[j]);
            assert(passed_flags(os@).len() == os@.len());
        }
    }
    r
}

/// The failure summary for the outcomes `os`.
pub fn summarize_failures(os: &Vec<ScenarioOutcome>) -> (r: String)
    ensures
        r@ == failure_summary(os@),
{
    let idx = failed_positions(os);
    let ghost iv = idx@.map_values(|i: usize| i as int);
    let mut r = String::new();
    let mut k: usize = 0;
    while k < idx.len()
        invariant
            k <= idx@.len(),
            iv == idx@.map_values(|i: usize| i as int),
            iv == first_failures(os@),
            forall|j: int| 0 <= j < idx@.len() ==> idx@[j] < os@.len(),
            r@ == join_failures(os@, iv.take(k as int)),
        decreases idx.len() - k,
    {
        let o = &os[idx[k]];
        if k > 0 {
            r.append("\n---\n");
        }
        r.append("Input: ");
        r.append(o.input.as_str());
        r.append("\nOutput: ");
        r.append(o.output.as_str());
        r.append("\nScore: ");
        r.append(o.score_label.as_str());
        proof {
            let t = iv.take(k + 1);
            assert(t.drop_last() =~= iv.take(k as int));
            assert(t.last() == idx@[k as int] as int);
            if k == 0 {
                assert(r@ =~= failure_text(os@[t[0]]));
            } else {
                assert(r@ =~= join_failures(os@, t.drop_last()) + "\n---\n"@ + failure_text(
                    os@[t.last()],
                ));
            }
        }
        k = k + 1;
    }
    assert(iv.take(k as int) =~= iv);
    r
}

/// The position of the first field at or after `from` that the
/// configuration `edits` make of `base` has, or the number of fields.
pub open spec fn next_field(
    base: AuraConfig,
    edits: Seq<(OptimizableField, Seq<char>)>,
    fields: Seq<OptimizableField>,
    from: int,
) -> int
    decreases fields.len() - from,
{
    if from < 0 || from >= fields.len() {
        fields.len() as int
    } else if edited_value(base, edits, fields[from]) is Some {
        from
    } else {
        next_field(base, edits, fields, from + 1)
    }
}

/// The first field at or after `from` that the configuration has, with its text.
pub fn find_next_field(
    base: &AuraConfig,
    edits: &Vec<Edit>,
    fields: &Vec<OptimizableField>,
    from: usize,
) -> (r: (usize, Option<String>))
    requires
        from <= fields@.len(),
    ensures
        r.0 as int == next_field(*base, edits_view(edits@), fields@, from as int),
        r.0 < fields@.len() ==> (r.1 matches Some(v) && edited_value(
            *base,
            edits_view(edits@),
            fields@[r.0 as int],
        ) == Some(v@)),
        r.0 == fields@.len() ==> r.1 is None,
{
    let mut i: usize = from;
    while i < fields.len()
        invariant
            from <= i <= fields@.len(),
            next_field(*base, edits_view(edits@), fields@, from as int) == next_field(
                *base,
                edits_view(edits@),
                fields@,
                i as int,
            ),
        decreases fields.len() - i,
    {
        match read_edited(base, edits, &fields[i]) {
            Some(v) => {
                return (i, Some(v));
            },
            None => {},
        }
        i = i + 1;
    }
    (i, None)
}

/// The texts that the field `f` has in each of `cands` (those that have
/// it), each with the candidate's score.
pub open spec fn alternatives(base: AuraConfig, cands: Seq<CandidateView>, f: OptimizableField) -> Seq<
    (Seq<char>, u64),
>
    decreases cands.len(),
{
    if cands.len() == 0 {
        seq![]
    } else {
        match edited_value(base, cands.last().edits, f) {
            Some(v) => alternatives(base, cands.drop_last(), f).push((v, cands.last().score)),
            None => alternatives(base, cands.drop_last(), f),
        }
    }
}

/// The texts that `f` has in the candidates after the first, with their scores.
pub(crate) fn collect_alternatives(base: &AuraConfig, cands: &Vec<ScoredCandidate>, f: &OptimizableField) -> (r:
    Vec<(String, u64)>)
    requires
        cands@.len() > 0,
    ensures
        alts_view(r@) == alternatives(*base, cands_view(cands@).skip(1), *f),
{
    let ghost all = cands_view(cands@);
    let mut r: Vec<(String, u64)> = Vec::new();
    let mut i: usize = 1;
    assert(all.skip(1).take(0) =~= Seq::<CandidateView>::empty());
    while i < cands.len()
        invariant
            1 <= i <= cands@.len(),
            all == cands_view(cands@),
            alts_view(r@) == alternatives(*base, all.skip(1).take(i - 1), *f),
        decreases cands.len() - i,
    {
        let c = &cands[i];
        let ghost t = all.skip(1).take(i as int);
        assert(t.drop_last() =~= all.skip(1).take(i - 1));
        assert(t.last() == c@);
        match read_edited(base, &c.edits, f) {
            Some(v) => {
                let ghost before = r@;
                r.push((v, c.score_bits));
                assert(alts_view(r@) =~= alts_view(before).push((v@, c.score_bits)));
            },
            None => {},
        }
        i = i + 1;
    }
    assert(all.skip(1).take(i - 1) =~= all.skip(1));
    r
}

} // verus!
