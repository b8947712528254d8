//! The instruction optimizer's search: for each target field it asks the
//! model for improved prompts, evaluates every admissible one and keeps the
//! best configuration found.
//!
//! The search is a state machine.  Each step answers the action of the
//! step before (an evaluation or a reply from the model) and names the next
//! action; the caller evaluates configurations and talks to the model.
use vstd::prelude::*;
use crate::config::schema::AuraConfig;
use crate::error::Error;
use crate::llm::client::ChatMessage;
use crate::optimizer::field::{OptimizableField, spec_field_path};
use crate::optimizer::fences::spec_strip_code_fences;
use crate::optimizer::instruction::{OPTIMIZER_SYSTEM_MESSAGE, spec_optimization_prompt,
    build_optimization_prompt, parse_candidate_prompts, candidate_admissible, first_where,
    lemma_first_positions, lemma_positions_props, positions};
use crate::optimizer::run::{Edit, Evaluation, ScoredCandidate, CandidateView, OptimizationLogEntry,
    LogView, OptimizationResult, ResultView, Rationale, edits_view, cands_view, logs_view,
    strings_view, edited_value, next_field, first_failures, failure_summary, sort_by_score,
    passed_flags, join_failures, extends_with, lemma_extends_refl, lemma_extends_push,
    alternatives, alts_view, clone_edits, result_keeps_best, result_sorted, sorted_by_score, read_edited, find_next_field, summarize_failures,
    failed_positions, sort_candidates, collect_alternatives};
use crate::json::json_string_array;
use crate::template::preserves_templates;
use crate::text::{owned, concat2};

verus! {

/// The note on the baseline when every scenario passed.
pub const ALL_PASSED_NOTE: &'static str = "All scenarios passed; no instruction changes needed.";

/// The note on the baseline candidate.
pub const BASELINE_NOTE: &'static str = "Baseline";

/// The note on a candidate; the field's path follows it.
pub const CANDIDATE_NOTE: &'static str = "InstructionOptimizer candidate for ";

/// The optimizer's name in the log.
pub const INSTRUCTION_OPTIMIZER_NAME: &'static str = "InstructionOptimizer";

/// Asks a model for improved prompt texts, one target field after another.
#[derive(Debug)]
pub struct InstructionOptimizer {
    pub num_candidates: usize,
    pub target_fields: Vec<OptimizableField>,
}

impl InstructionOptimizer {
    /// Three candidates per field, targeting the agent's system prompt.
    pub fn new() -> (r: Self)
        ensures
            r.num_candidates == 3,
            r.target_fields@ == seq![OptimizableField::AgentSystemPrompt],
    {
        let mut target_fields = Vec::new();
        target_fields.push(OptimizableField::AgentSystemPrompt);
        InstructionOptimizer { num_candidates: 3, target_fields }
    }

    /// Asks for `n` candidates per field.
    pub fn with_num_candidates(self, n: usize) -> (r: Self)
        ensures
            r.num_candidates == n,
            r.target_fields == self.target_fields,
    {
        InstructionOptimizer { num_candidates: n, target_fields: self.target_fields }
    }

    /// Targets the fields `fields`, in order.
    pub fn with_target_fields(self, fields: Vec<OptimizableField>) -> (r: Self)
        ensures
            r.num_candidates == self.num_candidates,
            r.target_fields == fields,
    {
        InstructionOptimizer { num_candidates: self.num_candidates, target_fields: fields }
    }

    /// Targets every optimizable field of `config`.
    pub fn with_all_fields(self, config: &AuraConfig) -> (r: Self)
        ensures
            r.num_candidates == self.num_candidates,
            crate::optimizer::field::lists_all_fields(*config, r.target_fields@),
    {
        InstructionOptimizer {
            num_candidates: self.num_candidates,
            target_fields: OptimizableField::all_fields(config),
        }
    }
}

/// Where a search stands.
#[derive(Debug, Clone, Copy, PartialEq, Eq, Structural)]
pub enum InstructionStage {
    /// Waiting for the evaluation of the input configuration.
    Baseline,
    /// Waiting for the model's proposals for the current field.
    Proposing,
    /// Waiting for the evaluation of the next pending candidate.
    Scoring,
    /// Done.
    Finished,
}

/// What the caller must do next.
#[derive(Debug)]
pub enum InstructionAction {
    /// Evaluate the configuration that these edits make of the input
    /// configuration, and answer with `Evaluated`.
    Evaluate(Vec<Edit>),
    /// Send these messages to the model, and answer with `Replied`.
    Ask(Vec<ChatMessage>),
    /// The search is over.
    Finish(OptimizationResult),
    /// The search failed.
    Fail(Error),
}

/// The caller's answer to an action.
#[derive(Debug)]
pub enum InstructionEvent {
    Evaluated(Evaluation),
    Replied(String),
}

/// An action, as plain values.
pub enum InstructionActionView {
    Evaluate(Seq<(OptimizableField, Seq<char>)>),
    Ask(Seq<(Seq<char>, Seq<char>)>),
    Finish(ResultView),
    FailLlmResponse(Seq<char>),
    FailOther,
}

/// The `(role, content)` pairs of a list of messages.
pub open spec fn messages_view(v: Seq<ChatMessage>) -> Seq<(Seq<char>, Seq<char>)> {
    v.map_values(|m: ChatMessage| (m.role@, m.content@))
}

impl View for InstructionAction {
    type V = InstructionActionView;

    open spec fn view(&self) -> InstructionActionView {
        match self {
            InstructionAction::Evaluate(e) => InstructionActionView::Evaluate(edits_view(e@)),
            InstructionAction::Ask(m) => InstructionActionView::Ask(messages_view(m@)),
            InstructionAction::Finish(r) => InstructionActionView::Finish(r@),
            InstructionAction::Fail(Error::LlmResponse(m)) => InstructionActionView::FailLlmResponse(
                m@,
            ),
            InstructionAction::Fail(_) => InstructionActionView::FailOther,
        }
    }
}

/// The state of a search, as plain values.
#[verifier::ext_equal]
pub struct InstructionModel {
    /// The configuration that edits apply to.
    pub base: AuraConfig,
    /// The edits that make the search's input configuration.
    pub start: Seq<(OptimizableField, Seq<char>)>,
    pub fields: Seq<OptimizableField>,
    pub num_candidates: nat,
    pub stage: InstructionStage,
    pub baseline: u64,
    pub summary: Seq<char>,
    pub best_edits: Seq<(OptimizableField, Seq<char>)>,
    pub best: u64,
    pub scored: Seq<CandidateView>,
    pub log: Seq<LogView>,
    /// The position of the current field.
    pub field: nat,
    /// The current field's text in the best configuration.
    pub current: Seq<char>,
    /// How many candidates the model proposed for the current field.
    pub proposed: nat,
    /// The admissible candidates for the current field.
    pub pending: Seq<Seq<char>>,
    /// The position of the next pending candidate to evaluate.
    pub next: nat,
}

/// What a well-formed search state satisfies.
pub open spec fn instruction_wf(m: InstructionModel) -> bool {
    &&& (m.stage == InstructionStage::Proposing || m.stage == InstructionStage::Scoring) ==> (
    m.scored.len() >= 1 && m.field < m.fields.len())
    &&& m.stage == InstructionStage::Scoring ==> m.next < m.pending.len()
}

/// A finished search: it has handed its findings over.
pub open spec fn finished(m: InstructionModel) -> InstructionModel {
    InstructionModel {
        stage: InstructionStage::Finished,
        best_edits: seq![],
        scored: seq![],
        log: seq![],
        ..m
    }
}

/// The answer that `m` waits for has the kind of `e`.
pub open spec fn instruction_expects(m: InstructionModel, e: InstructionEvent) -> bool {
    match m.stage {
        InstructionStage::Baseline | InstructionStage::Scoring => e is Evaluated,
        InstructionStage::Proposing => e is Replied,
        InstructionStage::Finished => false,
    }
}

/// The messages that ask for `n` improved versions of `f`.
pub open spec fn request_messages(
    f: OptimizableField,
    current: Seq<char>,
    summary: Seq<char>,
    n: nat,
) -> Seq<(Seq<char>, Seq<char>)> {
    seq![
        ("system"@, OPTIMIZER_SYSTEM_MESSAGE@),
        ("user"@, spec_optimization_prompt(f, current, summary, n)),
    ]
}

/// What a search state has found so far, as a result.
pub open spec fn result_of(m: InstructionModel) -> ResultView {
    ResultView {
        best_edits: m.best_edits,
        best_score: m.best,
        candidates: m.scored,
        baseline_score: m.baseline,
        log: m.log,
    }
}

/// Moves to the first field at or after `from` that the best configuration
/// has, and asks for proposals for it; finishes when there is none.
pub open spec fn advance(m: InstructionModel, from: nat) -> (InstructionModel, InstructionActionView) {
    let i = next_field(m.base, m.best_edits, m.fields, from as int);
    if i >= m.fields.len() {
        (finished(m), InstructionActionView::Finish(result_of(m)))
    } else {
        let f = m.fields[i];
        let v = edited_value(m.base, m.best_edits, f)->0;
        let m2 = InstructionModel {
            stage: InstructionStage::Proposing,
            field: i as nat,
            current: v,
            ..m
        };
        (m2, InstructionActionView::Ask(request_messages(f, v, m.summary, m.num_candidates)))
    }
}

/// The candidates that may be tried for `f`: those that keep every
/// placeholder of its current text (all of them for the system prompt).
pub open spec fn admissible(f: OptimizableField, current: Seq<char>, cands: Seq<Seq<char>>) -> Seq<
    Seq<char>,
>
    decreases cands.len(),
{
    if cands.len() == 0 {
        seq![]
    } else if f is AgentSystemPrompt || preserves_templates(current, cands.last()) {
        admissible(f, current, cands.drop_last()).push(cands.last())
    } else {
        admissible(f, current, cands.drop_last())
    }
}

/// The log entry for an improvement of the current field by `best`, the
/// first of the sorted candidates `sorted`.
pub open spec fn improvement_entry(
    m: InstructionModel,
    sorted: Seq<CandidateView>,
) -> LogView {
    let f = m.fields[m.field as int];
    let top = sorted[0];
    LogView {
        optimizer: INSTRUCTION_OPTIMIZER_NAME@,
        field: spec_field_path(f),
        before: m.current,
        after: match edited_value(m.base, top.edits, f) {
            Some(v) => v,
            None => m.current,
        },
        score_before: m.best,
        score_after: top.score,
        rationale: Rationale::Instruction { proposed: m.proposed as usize },
        alternatives: alternatives(m.base, sorted.skip(1), f),
    }
}

/// After the current field's candidates are scored: sort all candidates
/// by score, keep the best when it beats the best so far, and move on.
pub open spec fn close_field(m: InstructionModel) -> (InstructionModel, InstructionActionView) {
    let sorted = sort_by_score(m.scored);
    let top = sorted[0];
    let m2 = if top.score > m.best {
        InstructionModel {
            scored: sorted,
            log: m.log.push(improvement_entry(m, sorted)),
            best: top.score,
            best_edits: top.edits,
            ..m
        }
    } else {
        InstructionModel { scored: sorted, ..m }
    };
    advance(m2, m.field + 1)
}

/// Evaluates the next pending candidate, or closes the field when none is left.
pub open spec fn score_next(m: InstructionModel) -> (InstructionModel, InstructionActionView) {
    if m.next < m.pending.len() {
        let f = m.fields[m.field as int];
        (
            InstructionModel { stage: InstructionStage::Scoring, ..m },
            InstructionActionView::Evaluate(m.best_edits.push((f, m.pending[m.next as int]))),
        )
    } else {
        close_field(m)
    }
}

/// The candidate scored by the evaluation `ev` of the next pending candidate.
pub open spec fn scored_candidate(m: InstructionModel, ev: Evaluation) -> CandidateView {
    let f = m.fields[m.field as int];
    CandidateView {
        edits: m.best_edits.push((f, m.pending[m.next as int])),
        score: ev.average_bits,
        run: ev.run as nat,
        notes: seq![CANDIDATE_NOTE@ + spec_field_path(f)],
    }
}

/// One step of the search: the state after the answer `e`, and the next action.
pub open spec fn instruction_step(m: InstructionModel, e: InstructionEvent) -> (
    InstructionModel,
    InstructionActionView,
) {
    match (m.stage, e) {
        (InstructionStage::Baseline, InstructionEvent::Evaluated(ev)) => {
            let avg = ev.average_bits;
            if first_failures(ev.outcomes@).len() == 0 {
                let done = ResultView {
                    best_edits: m.start,
                    best_score: avg,
                    candidates: seq![
                        CandidateView {
                            edits: m.start,
                            score: avg,
                            run: ev.run as nat,
                            notes: seq![ALL_PASSED_NOTE@],
                        },
                    ],
                    baseline_score: avg,
                    log: seq![],
                };
                (
                    finished(InstructionModel { baseline: avg, best: avg, ..m }),
                    InstructionActionView::Finish(done),
                )
            } else {
                let m2 = InstructionModel {
                    baseline: avg,
                    summary: failure_summary(ev.outcomes@),
                    best_edits: m.start,
                    best: avg,
                    scored: seq![
                        CandidateView {
                            edits: m.start,
                            score: avg,
                            run: ev.run as nat,
                            notes: seq![BASELINE_NOTE@],
                        },
                    ],
                    ..m
                };
                advance(m2, 0)
            }
        },
        (InstructionStage::Proposing, InstructionEvent::Replied(text)) => {
            match json_string_array(spec_strip_code_fences(text@)) {
                Err(msg) => (
                    finished(m),
                    InstructionActionView::FailLlmResponse(
                        "failed to parse candidate prompts: "@ + msg,
                    ),
                ),
                Ok(cands) => score_next(
                    InstructionModel {
                        proposed: cands.len(),
                        pending: admissible(m.fields[m.field as int], m.current, cands),
                        next: 0,
                        ..m
                    },
                ),
            }
        },
        (InstructionStage::Scoring, InstructionEvent::Evaluated(ev)) => score_next(
            InstructionModel {
                stage: InstructionStage::Proposing,
                scored: m.scored.push(scored_candidate(m, ev)),
                next: m.next + 1,
                ..m
            },
        ),
        _ => (m, InstructionActionView::FailOther),
    }
}

/// A search in progress.
pub struct InstructionRun<'a> {
    base: &'a AuraConfig,
    start: Vec<Edit>,
    fields: Vec<OptimizableField>,
    num_candidates: usize,
    stage: InstructionStage,
    baseline: u64,
    summary: String,
    best_edits: Vec<Edit>,
    best: u64,
    scored: Vec<ScoredCandidate>,
    log: Vec<OptimizationLogEntry>,
    field: usize,
    current: String,
    proposed: usize,
    pending: Vec<String>,
    next: usize,
}

impl<'a> View for InstructionRun<'a> {
    type V = InstructionModel;

    closed spec fn view(&self) -> InstructionModel {
        InstructionModel {
            base: *self.base,
            start: edits_view(self.start@),
            fields: self.fields@,
            num_candidates: self.num_candidates as nat,
            stage: self.stage,
            baseline: self.baseline,
            summary: self.summary@,
            best_edits: edits_view(self.best_edits@),
            best: self.best,
            scored: cands_view(self.scored@),
            log: logs_view(self.log@),
            field: self.field as nat,
            current: self.current@,
            proposed: self.proposed as nat,
            pending: strings_view(self.pending@),
            next: self.next as nat,
        }
    }
}

/// The state a search starts in.
pub open spec fn initial_model(
    fields: Seq<OptimizableField>,
    num_candidates: nat,
    base: AuraConfig,
    start: Seq<(OptimizableField, Seq<char>)>,
) -> InstructionModel {
    InstructionModel {
        base,
        start,
        fields,
        num_candidates,
        stage: InstructionStage::Baseline,
        baseline: 0,
        summary: seq![],
        best_edits: seq![],
        best: 0,
        scored: seq![],
        log: seq![],
        field: 0,
        current: seq![],
        proposed: 0,
        pending: seq![],
        next: 0,
    }
}

/// Sorting keeps the number of candidates.
proof fn lemma_sort_len(s: Seq<CandidateView>)
    ensures
        sort_by_score(s).len() == s.len(),
    decreases s.len(),
{
    if s.len() > 0 {
        lemma_sort_len(s.drop_last());
        lemma_insert_len(sort_by_score(s.drop_last()), s.last());
    }
}

/// Inserting adds one candidate.
proof fn lemma_insert_len(s: Seq<CandidateView>, x: CandidateView)
    ensures
        crate::optimizer::run::insert_by_score(s, x).len() == s.len() + 1,
    decreases s.len(),
{
    if s.len() > 0 && s.last().score < x.score {
        lemma_insert_len(s.drop_last(), x);
    }
}

/// The candidates among `cands` that may be tried for `f`.
fn admissible_candidates(f: &OptimizableField, current: &str, cands: Vec<String>) -> (r: Vec<String>)
    ensures
        strings_view(r@) == admissible(*f, current@, strings_view(cands@)),
{
    let mut r: Vec<String> = Vec::new();
    let mut i: usize = 0;
    while i < cands.len()
        invariant
            i <= cands@.len(),
            strings_view(r@) == admissible(*f, current@, strings_view(cands@.take(i as int))),
        decreases cands.len() - i,
    {
        let c = &cands[i];
        let ghost t = strings_view(cands@.take(i + 1));
        assert(t.drop_last() =~= strings_view(cands@.take(i as int)));
        assert(t.last() == c@);
        if candidate_admissible(f, current, c.as_str()) {
            let ghost before = r@;
            r.push(c.clone());
            assert(strings_view(r@) =~= strings_view(before).push(c@));
        }
        i = i + 1;
    }
    assert(cands@.take(i as int) =~= cands@);
    r
}

impl<'a> InstructionRun<'a> {
    #[verifier::type_invariant]
    spec fn well_formed(self) -> bool {
        instruction_wf(self@)
    }

    /// Starts the search of `opt` from the configuration that `start` makes
    /// of `base`; the first action evaluates that configuration.
    pub fn start(opt: InstructionOptimizer, base: &'a AuraConfig, start: Vec<Edit>) -> (r: (
        Self,
        InstructionAction,
    ))
        ensures
            r.0@ == initial_model(
                opt.target_fields@,
                opt.num_candidates as nat,
                *base,
                edits_view(start@),
            ),
            r.1@ == InstructionActionView::Evaluate(edits_view(start@)),
    {
        let first = clone_edits(&start);
        let run = InstructionRun {
            base,
            start,
            fields: opt.target_fields,
            num_candidates: opt.num_candidates,
            stage: InstructionStage::Baseline,
            baseline: 0,
            summary: String::new(),
            best_edits: Vec::new(),
            best: 0,
            scored: Vec::new(),
            log: Vec::new(),
            field: 0,
            current: String::new(),
            proposed: 0,
            pending: Vec::new(),
            next: 0,
        };
        assert(run@ =~= initial_model(
            opt.target_fields@,
            opt.num_candidates as nat,
            *base,
            edits_view(first@),
        ));
        (run, InstructionAction::Evaluate(first))
    }

    /// Where the search stands.
    pub fn stage(&self) -> (r: InstructionStage)
        ensures
            r == self@.stage,
    {
        self.stage
    }

    /// Whether the search waits for an evaluation.
    pub fn awaits_evaluation(&self) -> (r: bool)
        ensures
            r == (self@.stage == InstructionStage::Baseline || self@.stage
                == InstructionStage::Scoring),
    {
        self.stage == InstructionStage::Baseline || self.stage == InstructionStage::Scoring
    }

    /// Whether the search waits for a reply from the model.
    pub fn awaits_reply(&self) -> (r: bool)
        ensures
            r == (self@.stage == InstructionStage::Proposing),
    {
        self.stage == InstructionStage::Proposing
    }

    /// Moves to the first field at or after `from` that the best
    /// configuration has.
    fn advance(self, from: usize) -> (r: (Self, InstructionAction))
        requires
            from <= self@.fields.len(),
            self@.scored.len() >= 1,
        ensures
            r.0@ == advance(self@, from as nat).0,
            r.1@ == advance(self@, from as nat).1,
    {
        let ghost m = self@;
        let (i, v) = find_next_field(self.base, &self.best_edits, &self.fields, from);
        if i >= self.fields.len() {
            let InstructionRun {
                base,
                start,
                fields,
                num_candidates,
                stage,
                baseline,
                summary,
                best_edits,
                best,
                scored,
                log,
                field,
                current,
                proposed,
                pending,
                next,
            } = self;
            let result = OptimizationResult {
                best_edits,
                best_score_bits: best,
                candidates: scored,
                baseline_score_bits: baseline,
                optimization_log: log,
            };
            let run = InstructionRun {
                base,
                start,
                fields,
                num_candidates,
                stage: InstructionStage::Finished,
                baseline,
                summary,
                best_edits: Vec::new(),
                best,
                scored: Vec::new(),
                log: Vec::new(),
                field,
                current,
                proposed,
                pending,
                next,
            };
            assert(run@ =~= finished(m));
            assert(result@ =~= result_of(m));
            (run, InstructionAction::Finish(result))
        } else {
            let value = match v {
                Some(x) => x,
                None => String::new(),
            };
            let f = &self.fields[i];
            let prompt = build_optimization_prompt(
                f,
                value.as_str(),
                self.summary.as_str(),
                self.num_candidates,
            );
            let mut messages: Vec<ChatMessage> = Vec::new();
            messages.push(ChatMessage::system(OPTIMIZER_SYSTEM_MESSAGE));
            messages.push(ChatMessage::user(prompt.as_str()));
            proof {
                reveal_strlit("system");
                reveal_strlit("user");
            }
            assert(messages_view(messages@) =~= request_messages(
                m.fields[i as int],
                value@,
                m.summary,
                m.num_candidates,
            ));
            let InstructionRun {
                base,
                start,
                fields,
                num_candidates,
                stage,
                baseline,
                summary,
                best_edits,
                best,
                scored,
                log,
                field,
                current,
                proposed,
                pending,
                next,
            } = self;
            let run = InstructionRun {
                base,
                start,
                fields,
                num_candidates,
                stage: InstructionStage::Proposing,
                baseline,
                summary,
                best_edits,
                best,
                scored,
                log,
                field: i,
                current: value,
                proposed,
                pending,
                next,
            };
            assert(run@ =~= advance(m, from as nat).0);
            (run, InstructionAction::Ask(messages))
        }
    }

    /// Sorts the candidates, keeps the best when it beats the best so far,
    /// and moves on to the next field.
    fn close_field(self) -> (r: (Self, InstructionAction))
        requires
            self@.stage == InstructionStage::Proposing,
            self@.scored.len() >= 1,
            self@.field < self@.fields.len(),
        ensures
            r.0@ == close_field(self@).0,
            r.1@ == close_field(self@).1,
    {
        let ghost m = self@;
        let InstructionRun {
            base,
            start,
            fields,
            num_candidates,
            stage,
            baseline,
            summary,
            best_edits,
            best,
            scored,
            log,
            field,
            current,
            proposed,
            pending,
            next,
        } = self;
        let sorted = sort_candidates(scored);
        proof {
            lemma_sort_len(m.scored);
        }
        let ghost sv = cands_view(sorted@);
        assert(sv[0] == sorted@[0]@);
        let f = &fields[field];
        let top_score = sorted[0].score_bits;
        let mut log = log;
        let mut best = best;
        let mut best_edits = best_edits;
        if top_score > best {
            let after = match read_edited(base, &sorted[0].edits, f) {
                Some(v) => v,
                None => current.clone(),
            };
            let entry = OptimizationLogEntry {
                optimizer: owned(INSTRUCTION_OPTIMIZER_NAME),
                field: f.field_path(),
                before: current.clone(),
                after,
                score_before_bits: best,
                score_after_bits: top_score,
                rationale: Rationale::Instruction { proposed },
                alternatives: collect_alternatives(base, &sorted, f),
            };
            assert(entry@ =~= improvement_entry(m, sv));
            let ghost before_log = log@;
            log.push(entry);
            assert(logs_view(log@) =~= logs_view(before_log).push(improvement_entry(m, sv)));
            best = top_score;
            best_edits = clone_edits(&sorted[0].edits);
        }
        let run = InstructionRun {
            base,
            start,
            fields,
            num_candidates,
            stage,
            baseline,
            summary,
            best_edits,
            best,
            scored: sorted,
            log,
            field,
            current,
            proposed,
            pending,
            next,
        };
        let ghost m2 = if sv[0].score > m.best {
            InstructionModel {
                scored: sv,
                log: m.log.push(improvement_entry(m, sv)),
                best: sv[0].score,
                best_edits: sv[0].edits,
                ..m
            }
        } else {
            InstructionModel { scored: sv, ..m }
        };
        assert(run@ =~= m2);
        let nf = run.fields.len();
        assert(field < nf);
        run.advance(field + 1)
    }

    /// Evaluates the next pending candidate, or closes the field.
    fn score_next(self) -> (r: (Self, InstructionAction))
        requires
            self@.stage == InstructionStage::Proposing,
            self@.scored.len() >= 1,
            self@.field < self@.fields.len(),
            self@.next <= self@.pending.len(),
        ensures
            r.0@ == score_next(self@).0,
            r.1@ == score_next(self@).1,
    {
        let ghost m = self@;
        if self.next < self.pending.len() {
            let mut edits = clone_edits(&self.best_edits);
            let f = self.fields[self.field].clone();
            let value = self.pending[self.next].clone();
            let ghost e = Edit { field: f, value };
            edits.push(Edit { field: f, value });
            assert(edits_view(edits@) =~= m.best_edits.push(
                (m.fields[m.field as int], m.pending[m.next as int]),
            ));
            let InstructionRun {
                base,
                start,
                fields,
                num_candidates,
                stage,
                baseline,
                summary,
                best_edits,
                best,
                scored,
                log,
                field,
                current,
                proposed,
                pending,
                next,
            } = self;
            let run = InstructionRun {
                base,
                start,
                fields,
                num_candidates,
                stage: InstructionStage::Scoring,
                baseline,
                summary,
                best_edits,
                best,
                scored,
                log,
                field,
                current,
                proposed,
                pending,
                next,
            };
            assert(run@ =~= InstructionModel { stage: InstructionStage::Scoring, ..m });
            (run, InstructionAction::Evaluate(edits))
        } else {
            self.close_field()
        }
    }

    /// Takes the answer `event` to the last action and names the next action.
    pub fn step(self, event: InstructionEvent) -> (r: (Self, InstructionAction))
        requires
            instruction_expects(self@, event),
        ensures
            r.0@ == instruction_step(self@, event).0,
            r.1@ == instruction_step(self@, event).1,
    {
        proof {
            use_type_invariant(&self);
        }
        let ghost m = self@;
        match event {
            InstructionEvent::Evaluated(ev) => {
                if self.stage == InstructionStage::Baseline {
                    let failed = failed_positions(&ev.outcomes);
                    let avg = ev.average_bits;
                    let InstructionRun {
                        base,
                        start,
                        fields,
                        num_candidates,
                        stage,
                        baseline,
                        summary,
                        best_edits,
                        best,
                        scored,
                        log,
                        field,
                        current,
                        proposed,
                        pending,
                        next,
                    } = self;
                    if failed.len() == 0 {
                        let mut notes: Vec<String> = Vec::new();
                        notes.push(owned(ALL_PASSED_NOTE));
                        assert(strings_view(notes@) =~= seq![ALL_PASSED_NOTE@]);
                        let cand = ScoredCandidate {
                            edits: clone_edits(&start),
                            score_bits: avg,
                            run: ev.run,
                            notes,
                        };
                        let ghost cv = CandidateView {
                            edits: m.start,
                            score: avg,
                            run: ev.run as nat,
                            notes: seq![ALL_PASSED_NOTE@],
                        };
                        assert(cand@ =~= cv);
                        let mut candidates: Vec<ScoredCandidate> = Vec::new();
                        candidates.push(cand);
                        assert(cands_view(candidates@) =~= seq![cv]);
                        let result = OptimizationResult {
                            best_edits: clone_edits(&start),
                            best_score_bits: avg,
                            candidates,
                            baseline_score_bits: avg,
                            optimization_log: Vec::new(),
                        };
                        let run = InstructionRun {
                            base,
                            start,
                            fields,
                            num_candidates,
                            stage: InstructionStage::Finished,
                            baseline: avg,
                            summary,
                            best_edits: Vec::new(),
                            best: avg,
                            scored: Vec::new(),
                            log: Vec::new(),
                            field,
                            current,
                            proposed,
                            pending,
                            next,
                        };
                        assert(run@ =~= instruction_step(m, InstructionEvent::Evaluated(ev)).0);
                        assert(result@ =~= match instruction_step(
                            m,
                            InstructionEvent::Evaluated(ev),
                        ).1 {
                            InstructionActionView::Finish(x) => x,
                            _ => result@,
                        });
                        (run, InstructionAction::Finish(result))
                    } else {
                        let mut notes: Vec<String> = Vec::new();
                        notes.push(owned(BASELINE_NOTE));
                        assert(strings_view(notes@) =~= seq![BASELINE_NOTE@]);
                        let cand = ScoredCandidate {
                            edits: clone_edits(&start),
                            score_bits: avg,
                            run: ev.run,
                            notes,
                        };
                        let ghost cv = CandidateView {
                            edits: m.start,
                            score: avg,
                            run: ev.run as nat,
                            notes: seq![BASELINE_NOTE@],
                        };
                        assert(cand@ =~= cv);
                        let mut scored: Vec<ScoredCandidate> = Vec::new();
                        scored.push(cand);
                        assert(cands_view(scored@) =~= seq![cv]);
                        let run = InstructionRun {
                            base,
                            best_edits: clone_edits(&start),
                            start,
                            fields,
                            num_candidates,
                            stage,
                            baseline: avg,
                            summary: summarize_failures(&ev.outcomes),
                            best: avg,
                            scored,
                            log,
                            field,
                            current,
                            proposed,
                            pending,
                            next,
                        };
                        let ghost m2 = InstructionModel {
                            baseline: avg,
                            summary: failure_summary(ev.outcomes@),
                            best_edits: m.start,
                            best: avg,
                            scored: seq![
                                CandidateView {
                                    edits: m.start,
                                    score: avg,
                                    run: ev.run as nat,
                                    notes: seq![BASELINE_NOTE@],
                                },
                            ],
                            ..m
                        };
                        assert(run@ =~= m2);
                        run.advance(0)
                    }
                } else {
                    let f = self.fields[self.field].clone();
                    let path = f.field_path();
                    let mut notes: Vec<String> = Vec::new();
                    notes.push(concat2(CANDIDATE_NOTE, path.as_str()));
                    let mut edits = clone_edits(&self.best_edits);
                    edits.push(Edit { field: f, value: self.pending[self.next].clone() });
                    let cand = ScoredCandidate {
                        edits,
                        score_bits: ev.average_bits,
                        run: ev.run,
                        notes,
                    };
                    assert(cand@ =~= scored_candidate(m, ev));
                    let InstructionRun {
                        base,
                        start,
                        fields,
                        num_candidates,
                        stage,
                        baseline,
                        summary,
                        best_edits,
                        best,
                        scored,
                        log,
                        field,
                        current,
                        proposed,
                        pending,
                        next,
                    } = self;
                    let mut scored = scored;
                    scored.push(cand);
                    let np = pending.len();
                    assert(next < np);
                    let run = InstructionRun {
                        base,
                        start,
                        fields,
                        num_candidates,
                        stage: InstructionStage::Proposing,
                        baseline,
                        summary,
                        best_edits,
                        best,
                        scored,
                        log,
                        field,
                        current,
                        proposed,
                        pending,
                        next: next + 1,
                    };
                    assert(run@ =~= InstructionModel {
                        stage: InstructionStage::Proposing,
                        scored: m.scored.push(scored_candidate(m, ev)),
                        next: m.next + 1,
                        ..m
                    });
                    run.score_next()
                }
            },
            InstructionEvent::Replied(text) => {
                let parsed = parse_candidate_prompts(text.as_str());
                match parsed {
                    Err(e) => {
                        let InstructionRun {
                            base,
                            start,
                            fields,
                            num_candidates,
                            stage,
                            baseline,
                            summary,
                            best_edits,
                            best,
                            scored,
                            log,
                            field,
                            current,
                            proposed,
                            pending,
                            next,
                        } = self;
                        let run = InstructionRun {
                            base,
                            start,
                            fields,
                            num_candidates,
                            stage: InstructionStage::Finished,
                            baseline,
                            summary,
                            best_edits: Vec::new(),
                            best,
                            scored: Vec::new(),
                            log: Vec::new(),
                            field,
                            current,
                            proposed,
                            pending,
                            next,
                        };
                        assert(run@ =~= finished(m));
                        (run, InstructionAction::Fail(e))
                    },
                    Ok(cands) => {
                        let proposed = cands.len();
                        let admissible_now = admissible_candidates(
                            &self.fields[self.field],
                            self.current.as_str(),
                            cands,
                        );
                        let InstructionRun {
                            base,
                            start,
                            fields,
                            num_candidates,
                            stage,
                            baseline,
                            summary,
                            best_edits,
                            best,
                            scored,
                            log,
                            field,
                            current,
                            proposed: _,
                            pending,
                            next,
                        } = self;
                        let run = InstructionRun {
                            base,
                            start,
                            fields,
                            num_candidates,
                            stage,
                            baseline,
                            summary,
                            best_edits,
                            best,
                            scored,
                            log,
                            field,
                            current,
                            proposed,
                            pending: admissible_now,
                            next: 0,
                        };
                        run.score_next()
                    },
                }
            },
        }
    }
}

/// The best score is at least the baseline and is the score of a scored
/// candidate made by the best edits.
pub open spec fn best_is_scored(m: InstructionModel) -> bool {
    &&& m.scored.len() >= 1
    &&& m.best >= m.baseline
    &&& exists|i: int|
        0 <= i < m.scored.len() && (#[trigger] m.scored[i]).edits == m.best_edits
            && m.scored[i].score == m.best
}

/// The log records the improvements from `baseline` to `best`: each entry
/// raises the score, each starts where the one before ended, and all come
/// from the instruction search.
pub open spec fn log_chain(log: Seq<LogView>, baseline: u64, best: u64) -> bool {
    &&& log.len() == 0 ==> best == baseline
    &&& log.len() > 0 ==> log[0].score_before == baseline && log[log.len() - 1].score_after == best
    &&& forall|i: int|
        0 <= i < log.len() ==> (#[trigger] log[i]).score_before < log[i].score_after
            && log[i].optimizer == INSTRUCTION_OPTIMIZER_NAME@
    &&& forall|i: int| 0 < i < log.len() ==> (#[trigger] log[i]).score_before == log[i - 1].score_after
}

/// The log has at most `n` entries, each for one of `fields`.
pub open spec fn log_fields(log: Seq<LogView>, fields: Seq<OptimizableField>, n: int) -> bool {
    &&& log.len() <= n
    &&& forall|i: int|
        0 <= i < log.len() ==> exists|k: int|
            0 <= k < fields.len() && (#[trigger] log[i]).field == spec_field_path(fields[k])
}

/// Each pending candidate for `f` keeps every placeholder of `current`.
pub open spec fn pending_keeps_templates(
    f: OptimizableField,
    current: Seq<char>,
    pending: Seq<Seq<char>>,
) -> bool {
    forall|j: int|
        0 <= j < pending.len() ==> f is AgentSystemPrompt || preserves_templates(
            current,
            #[trigger] pending[j],
        )
}

/// What holds of every state a search reaches.
pub open spec fn instruction_inv(m: InstructionModel) -> bool {
    &&& instruction_wf(m)
    &&& m.stage == InstructionStage::Baseline ==> m.log.len() == 0
    &&& (m.stage == InstructionStage::Proposing || m.stage == InstructionStage::Scoring) ==> {
        &&& best_is_scored(m)
        &&& log_chain(m.log, m.baseline, m.best)
        &&& log_fields(m.log, m.fields, m.field as int)
        &&& edited_value(m.base, m.best_edits, m.fields[m.field as int]) == Some(m.current)
        &&& edits_extend(m)
    }
    &&& m.stage == InstructionStage::Scoring ==> pending_keeps_templates(
        m.fields[m.field as int],
        m.current,
        m.pending,
    )
}

/// The best edits and every scored candidate's edits are the start edits
/// followed by edits of target fields only.
pub open spec fn edits_extend(m: InstructionModel) -> bool {
    &&& extends_with(m.best_edits, m.start, m.fields)
    &&& forall|k: int|
        0 <= k < m.scored.len() ==> extends_with(#[trigger] m.scored[k].edits, m.start, m.fields)
}

/// Every configuration an action asks to evaluate, and every configuration
/// a finishing action hands over, is the start edits followed by edits of
/// the target fields only.
pub open spec fn actions_extend(
    start: Seq<(OptimizableField, Seq<char>)>,
    fields: Seq<OptimizableField>,
    a: InstructionActionView,
) -> bool {
    &&& a matches InstructionActionView::Evaluate(edits) ==> extends_with(edits, start, fields)
    &&& a matches InstructionActionView::Finish(r) ==> extends_with(r.best_edits, start, fields)
        && forall|k: int|
        0 <= k < r.candidates.len() ==> extends_with(#[trigger] r.candidates[k].edits, start, fields)
}

/// A finishing action hands over a result that keeps the best candidate
/// and lists its candidates by decreasing score.
pub open spec fn finishes_well(a: InstructionActionView) -> bool {
    a matches InstructionActionView::Finish(r) ==> result_keeps_best(r) && result_sorted(r)
}

/// A finished search's log chains its improvements from the baseline to the
/// best score, with at most one entry per target field.
pub open spec fn finish_log_ok(fields: Seq<OptimizableField>, a: InstructionActionView) -> bool {
    a matches InstructionActionView::Finish(r) ==> log_chain(r.log, r.baseline_score, r.best_score)
        && log_fields(r.log, fields, fields.len() as int)
}

/// Every configuration the search (now in `m`) asks to evaluate is its best
/// configuration with one candidate for the current field, and that
/// candidate keeps every placeholder of the field's text there.
pub open spec fn evaluates_admissible(m: InstructionModel, a: InstructionActionView) -> bool {
    a matches InstructionActionView::Evaluate(edits) ==> {
        let f = m.fields[m.field as int];
        &&& m.stage == InstructionStage::Scoring
        &&& edits.len() >= 1
        &&& edits.drop_last() == m.best_edits
        &&& edits.last().0 == f
        &&& edited_value(m.base, m.best_edits, f) == Some(m.current)
        &&& (f is AgentSystemPrompt || preserves_templates(m.current, edits.last().1))
    }
}

proof fn lemma_admissible(f: OptimizableField, current: Seq<char>, cands: Seq<Seq<char>>)
    ensures
        pending_keeps_templates(f, current, admissible(f, current, cands)),
    decreases cands.len(),
{
    if cands.len() > 0 {
        lemma_admissible(f, current, cands.drop_last());
    }
}

proof fn lemma_advance_inv(m: InstructionModel, from: nat)
    requires
        best_is_scored(m),
        forall|i: int| 0 <= i < m.scored.len() ==> (#[trigger] m.scored[i]).score <= m.best,
        sorted_by_score(m.scored),
        m.scored[0].score == m.best,
        log_chain(m.log, m.baseline, m.best),
        log_fields(m.log, m.fields, from as int),
        from <= m.fields.len(),
        edits_extend(m),
    ensures
        instruction_inv(advance(m, from).0),
        finishes_well(advance(m, from).1),
        finish_log_ok(m.fields, advance(m, from).1),
        advance(m, from).1 !is Evaluate,
        actions_extend(m.start, m.fields, advance(m, from).1),
{
    let i = next_field(m.base, m.best_edits, m.fields, from as int);
    lemma_next_field_range(m.base, m.best_edits, m.fields, from as int);
    if i < m.fields.len() {
        let m2 = advance(m, from).0;
        assert(m2.scored == m.scored);
        let k = choose|k: int|
            0 <= k < m.scored.len() && (#[trigger] m.scored[k]).edits == m.best_edits
                && m.scored[k].score == m.best;
        assert(m2.scored[k].edits == m2.best_edits);
    } else {
        let r = result_of(m);
        let k = choose|k: int|
            0 <= k < m.scored.len() && (#[trigger] m.scored[k]).edits == m.best_edits
                && m.scored[k].score == m.best;
        assert(r.candidates[k].edits == r.best_edits);
    }
}

proof fn lemma_next_field_range(
    base: AuraConfig,
    edits: Seq<(OptimizableField, Seq<char>)>,
    fields: Seq<OptimizableField>,
    from: int,
)
    requires
        0 <= from,
    ensures
        from <= next_field(base, edits, fields, from) <= fields.len() || (from > fields.len()
            && next_field(base, edits, fields, from) == fields.len()),
        next_field(base, edits, fields, from) < fields.len() ==> edited_value(
            base,
            edits,
            fields[next_field(base, edits, fields, from)],
        ) is Some,
    decreases fields.len() - from,
{
    if from < fields.len() && edited_value(base, edits, fields[from]) is None {
        lemma_next_field_range(base, edits, fields, from + 1);
    }
}

proof fn lemma_close_field_inv(m: InstructionModel)
    requires
        best_is_scored(m),
        m.field < m.fields.len(),
        log_chain(m.log, m.baseline, m.best),
        log_fields(m.log, m.fields, m.field as int),
        edits_extend(m),
    ensures
        instruction_inv(close_field(m).0),
        finishes_well(close_field(m).1),
        finish_log_ok(m.fields, close_field(m).1),
        close_field(m).1 !is Evaluate,
        actions_extend(m.start, m.fields, close_field(m).1),
{
    let sorted = sort_by_score(m.scored);
    crate::optimizer::run::lemma_sort_by_score(m.scored);
    let top = sorted[0];
    assert forall|i: int| 0 <= i < sorted.len() implies extends_with(
        #[trigger] sorted[i].edits,
        m.start,
        m.fields,
    ) by {
        assert(sorted.contains(sorted[i]));
        assert(m.scored.contains(sorted[i]));
        let j = choose|j: int| 0 <= j < m.scored.len() && m.scored[j] == sorted[i];
        assert(extends_with(m.scored[j].edits, m.start, m.fields));
    }
    assert forall|i: int| 0 <= i < sorted.len() implies (#[trigger] sorted[i]).score <= top.score by {
        if i > 0 {
        }
    }
    let k = choose|k: int|
        0 <= k < m.scored.len() && (#[trigger] m.scored[k]).edits == m.best_edits
            && m.scored[k].score == m.best;
    assert(m.scored.contains(m.scored[k]));
    assert(sorted.contains(m.scored[k]));
    let q = choose|q: int| 0 <= q < sorted.len() && sorted[q] == m.scored[k];
    if top.score > m.best {
        let e = improvement_entry(m, sorted);
        let log2 = m.log.push(e);
        let m2 = InstructionModel {
            scored: sorted,
            log: log2,
            best: top.score,
            best_edits: top.edits,
            ..m
        };
        assert(m2.scored[0].edits == m2.best_edits);
        assert(log2[log2.len() - 1] == e);
        assert forall|i: int| 0 < i < log2.len() implies (#[trigger] log2[i]).score_before == log2[i
            - 1].score_after by {
            if i < m.log.len() {
                assert(log2[i] == m.log[i]);
                assert(log2[i - 1] == m.log[i - 1]);
            }
        }
        assert forall|i: int| 0 <= i < log2.len() implies exists|j: int|
            0 <= j < m.fields.len() && (#[trigger] log2[i]).field == spec_field_path(m.fields[j]) by {
            if i < m.log.len() {
                assert(log2[i] == m.log[i]);
            } else {
                assert(log2[i].field == spec_field_path(m.fields[m.field as int]));
            }
        }
        assert forall|i: int| 0 <= i < log2.len() implies (#[trigger] log2[i]).score_before
            < log2[i].score_after && log2[i].optimizer == INSTRUCTION_OPTIMIZER_NAME@ by {
            if i < m.log.len() {
                assert(log2[i] == m.log[i]);
            }
        }
        if m.log.len() > 0 {
            assert(log2[0] == m.log[0]);
        }
        lemma_advance_inv(m2, m.field + 1);
    } else {
        let m2 = InstructionModel { scored: sorted, ..m };
        assert(m2.scored[q].edits == m2.best_edits);
        assert(sorted[0].score >= sorted[q].score);
        lemma_advance_inv(m2, m.field + 1);
    }
}

proof fn lemma_score_next_inv(m: InstructionModel)
    requires
        best_is_scored(m),
        m.field < m.fields.len(),
        m.next <= m.pending.len(),
        log_chain(m.log, m.baseline, m.best),
        log_fields(m.log, m.fields, m.field as int),
        edited_value(m.base, m.best_edits, m.fields[m.field as int]) == Some(m.current),
        pending_keeps_templates(m.fields[m.field as int], m.current, m.pending),
        edits_extend(m),
    ensures
        instruction_inv(score_next(m).0),
        finishes_well(score_next(m).1),
        finish_log_ok(m.fields, score_next(m).1),
        evaluates_admissible(score_next(m).0, score_next(m).1),
        actions_extend(m.start, m.fields, score_next(m).1),
{
    if m.next < m.pending.len() {
        assert(m.fields.contains(m.fields[m.field as int]));
        lemma_extends_push(
            m.best_edits,
            m.start,
            m.fields,
            (m.fields[m.field as int], m.pending[m.next as int]),
        );
        let m2 = score_next(m).0;
        let k = choose|k: int|
            0 <= k < m.scored.len() && (#[trigger] m.scored[k]).edits == m.best_edits
                && m.scored[k].score == m.best;
        assert(m2.scored[k].edits == m2.best_edits);
        let edits = m.best_edits.push((m.fields[m.field as int], m.pending[m.next as int]));
        assert(edits.drop_last() =~= m.best_edits);
    } else {
        lemma_close_field_inv(m);
    }
}

/// Every state a search reaches satisfies `instruction_inv`: the starting
/// state does, and each step keeps it.  A step that finishes the search
/// hands over a result that never scores below the baseline, in which no
/// candidate scored higher than the best, whose candidates come by
/// decreasing score with the best first, whose best edits made a candidate
/// with the best score, and whose log chains its improvements from the
/// baseline to the best with at most one entry per target field.  Every
/// configuration a step asks to evaluate carries a candidate that keeps the
/// placeholders of the field's text.
pub proof fn law_instruction_search(m: InstructionModel, e: InstructionEvent)
    requires
        instruction_inv(m),
        instruction_expects(m, e),
    ensures
        instruction_inv(instruction_step(m, e).0),
        finishes_well(instruction_step(m, e).1),
        finish_log_ok(m.fields, instruction_step(m, e).1),
        evaluates_admissible(instruction_step(m, e).0, instruction_step(m, e).1),
        actions_extend(m.start, m.fields, instruction_step(m, e).1),
        instruction_step(m, e).0.start == m.start,
        instruction_step(m, e).0.fields == m.fields,
        instruction_step(m, e).0.base == m.base,
{
    lemma_extends_refl(m.start, m.fields);
    match (m.stage, e) {
        (InstructionStage::Baseline, InstructionEvent::Evaluated(ev)) => {
            let avg = ev.average_bits;
            if first_failures(ev.outcomes@).len() == 0 {
                let r = match instruction_step(m, e).1 {
                    InstructionActionView::Finish(x) => x,
                    _ => result_of(m),
                };
                assert(r.candidates[0].edits == r.best_edits);
            } else {
                let m2 = InstructionModel {
                    baseline: avg,
                    summary: failure_summary(ev.outcomes@),
                    best_edits: m.start,
                    best: avg,
                    scored: seq![
                        CandidateView {
                            edits: m.start,
                            score: avg,
                            run: ev.run as nat,
                            notes: seq![BASELINE_NOTE@],
                        },
                    ],
                    ..m
                };
                assert(m2.scored[0].edits == m2.best_edits);
                lemma_advance_inv(m2, 0);
            }
        },
        (InstructionStage::Proposing, InstructionEvent::Replied(text)) => {
            match json_string_array(spec_strip_code_fences(text@)) {
                Err(msg) => {},
                Ok(cands) => {
                    let m2 = InstructionModel {
                        proposed: cands.len(),
                        pending: admissible(m.fields[m.field as int], m.current, cands),
                        next: 0,
                        ..m
                    };
                    let k = choose|k: int|
                        0 <= k < m.scored.len() && (#[trigger] m.scored[k]).edits == m.best_edits
                            && m.scored[k].score == m.best;
                    assert(m2.scored[k].edits == m2.best_edits);
                    lemma_admissible(m.fields[m.field as int], m.current, cands);
                    lemma_score_next_inv(m2);
                },
            }
        },
        (InstructionStage::Scoring, InstructionEvent::Evaluated(ev)) => {
            let m2 = InstructionModel {
                stage: InstructionStage::Proposing,
                scored: m.scored.push(scored_candidate(m, ev)),
                next: m.next + 1,
                ..m
            };
            let k = choose|k: int|
                0 <= k < m.scored.len() && (#[trigger] m.scored[k]).edits == m.best_edits
                    && m.scored[k].score == m.best;
            assert(m2.scored[k].edits == m2.best_edits);
            assert(m.fields.contains(m.fields[m.field as int]));
            lemma_extends_push(
                m.best_edits,
                m.start,
                m.fields,
                (m.fields[m.field as int], m.pending[m.next as int]),
            );
            assert forall|j: int| 0 <= j < m2.scored.len() implies extends_with(
                #[trigger] m2.scored[j].edits,
                m2.start,
                m2.fields,
            ) by {
                if j < m.scored.len() {
                    assert(m2.scored[j] == m.scored[j]);
                }
            }
            lemma_score_next_inv(m2);
        },
        _ => {},
    }
}

/// A reply that does not parse as a JSON array of strings, once its code
/// fences are stripped, ends the search with a failure that carries the
/// parser's error.
pub proof fn law_unparsable_reply_fails(m: InstructionModel, text: String)
    requires
        m.stage == InstructionStage::Proposing,
        json_string_array(spec_strip_code_fences(text@)) is Err,
    ensures
        instruction_step(m, InstructionEvent::Replied(text)).1
            == InstructionActionView::FailLlmResponse(
            "failed to parse candidate prompts: "@ + json_string_array(
                spec_strip_code_fences(text@),
            )->Err_0,
        ),
        instruction_step(m, InstructionEvent::Replied(text)).0.stage == InstructionStage::Finished,
{
}

/// A search starts in a state that satisfies `instruction_inv`.
pub proof fn law_instruction_start(
    fields: Seq<OptimizableField>,
    num_candidates: nat,
    base: AuraConfig,
    start: Seq<(OptimizableField, Seq<char>)>,
)
    ensures
        instruction_inv(initial_model(fields, num_candidates, base, start)),
{
}

/// The state after answering each of `es` in turn from `m`, and the last
/// action (`FailOther` when no answer was given).
pub open spec fn instruction_run(m: InstructionModel, es: Seq<InstructionEvent>) -> (
    InstructionModel,
    InstructionActionView,
)
    decreases es.len(),
{
    if es.len() == 0 {
        (m, InstructionActionView::FailOther)
    } else {
        instruction_step(instruction_run(m, es.drop_last()).0, es.last())
    }
}

/// Each of `es` answers the action that the state it meets waits for.
pub open spec fn instruction_answers(m: InstructionModel, es: Seq<InstructionEvent>) -> bool
    decreases es.len(),
{
    es.len() == 0 || (instruction_answers(m, es.drop_last()) && instruction_expects(
        instruction_run(m, es.drop_last()).0,
        es.last(),
    ))
}

/// Over a whole run of answers from a state that satisfies
/// `instruction_inv` (such as the starting state), every state reached
/// satisfies it, the targets stay the same, and the last action is as
/// `law_instruction_search` says of one step: a finish keeps the best, lists
/// its candidates by decreasing score with the best first, and chains its
/// log from the baseline to the best with at most one entry per target
/// field; an evaluation carries a candidate that keeps the placeholders of
/// the field's text.
pub proof fn law_instruction_whole_run(m: InstructionModel, es: Seq<InstructionEvent>)
    requires
        instruction_inv(m),
        instruction_answers(m, es),
    ensures
        instruction_inv(instruction_run(m, es).0),
        instruction_run(m, es).0.fields == m.fields,
        es.len() > 0 ==> finishes_well(instruction_run(m, es).1),
        es.len() > 0 ==> finish_log_ok(m.fields, instruction_run(m, es).1),
        es.len() > 0 ==> evaluates_admissible(instruction_run(m, es).0, instruction_run(m, es).1),
    decreases es.len(),
{
    if es.len() > 0 {
        law_instruction_whole_run(m, es.drop_last());
        let p = instruction_run(m, es.drop_last()).0;
        law_instruction_search(p, es.last());
    }
}

/// The answer to the baseline evaluation.  When every scenario passed,
/// whatever the scores, the search finishes at once: its only candidate is
/// the input configuration, noted as needing no changes, its best and
/// baseline scores are the evaluation's average, and its log is empty.
/// When some scenario failed, the failures the model will see are exactly
/// the first three (or fewer) scenarios that did not pass, in order, and the
/// search does not finish with the all-passed verdict.
pub proof fn law_instruction_baseline(m: InstructionModel, ev: Evaluation)
    requires
        m.stage == InstructionStage::Baseline,
    ensures
        ({
            let os = ev.outcomes@;
            let st = instruction_step(m, InstructionEvent::Evaluated(ev));
            &&& (forall|i: int| 0 <= i < os.len() ==> #[trigger] os[i].passed) ==> (st.1 matches InstructionActionView::Finish(
                r,
            ) && r.best_edits == m.start && r.best_score == ev.average_bits && r.baseline_score
                == ev.average_bits && r.log.len() == 0 && r.candidates.len() == 1
                && r.candidates[0].edits == m.start && r.candidates[0].score == ev.average_bits
                && r.candidates[0].notes == seq![ALL_PASSED_NOTE@])
            &&& (exists|i: int| 0 <= i < os.len() && !(#[trigger] os[i].passed)) ==> {
                &&& exists|idx: Seq<int>|
                    first_where(os.len() as int, |j: int| !os[j].passed, 3, idx) && idx.len() > 0
                        && #[trigger] join_failures(os, idx) == st.0.summary
                &&& st.0.baseline == ev.average_bits
                &&& st.1 matches InstructionActionView::Finish(r) ==> r.candidates.len() == 1
                    && r.candidates[0].notes == seq![BASELINE_NOTE@]
            }
        }),
{
    let os = ev.outcomes@;
    let flags = passed_flags(os);
    lemma_positions_props(flags, false);
    let all = positions(flags, false);
    if forall|i: int| 0 <= i < os.len() ==> #[trigger] os[i].passed {
        if all.len() > 0 {
            assert(flags[all[0]] == false);
            assert(os[all[0]].passed);
        }
        assert(first_failures(os).len() == 0);
    } else {
        let i = choose|i: int| 0 <= i < os.len() && !(#[trigger] os[i].passed);
        assert(flags[i] == false);
        let p = |j: int| !os[j].passed;
        assert forall|j: int| 0 <= j < flags.len() implies (#[trigger] p(j) <==> flags[j] == false) by {}
        lemma_first_positions(flags, false, 3, p);
        let idx = first_failures(os);
        let k = choose|k: int| 0 <= k < all.len() && all[k] == i;
        assert(idx.len() > 0);
        assert(first_where(os.len() as int, p, 3, idx));
        let avg = ev.average_bits;
        let m2 = InstructionModel {
            baseline: avg,
            summary: failure_summary(os),
            best_edits: m.start,
            best: avg,
            scored: seq![
                CandidateView {
                    edits: m.start,
                    score: avg,
                    run: ev.run as nat,
                    notes: seq![BASELINE_NOTE@],
                },
            ],
            ..m
        };
        assert(instruction_step(m, InstructionEvent::Evaluated(ev)) == advance(m2, 0));
        assert(join_failures(os, idx) == advance(m2, 0).0.summary);
    }
}

} // verus!
