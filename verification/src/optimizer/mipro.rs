//! MIPRO-style optimization: several rounds of instruction search, each
//! starting from the best configuration found so far.
use vstd::prelude::*;
use crate::config::schema::AuraConfig;
use crate::error::Error;
use crate::optimizer::field::OptimizableField;
use crate::optimizer::instruction_search::{InstructionOptimizer, InstructionRun, InstructionModel,
    InstructionAction, InstructionActionView, InstructionEvent, InstructionStage, initial_model,
    instruction_step, instruction_expects, instruction_inv, finishes_well, law_instruction_search,
    law_instruction_start, actions_extend};
use crate::optimizer::run::{Edit, ScoredCandidate, CandidateView, OptimizationLogEntry, LogView,
    OptimizationResult, ResultView, edits_view, cands_view, logs_view, strings_view, clone_edits,
    clone_fields, sort_by_score, sort_candidates, lemma_sort_by_score, result_keeps_best, result_sorted,
    extends_with, lemma_extends_refl, lemma_extends_trans};
use crate::text::{decimal, decimal_string, owned, concat3};

verus! {

/// The note on the initial baseline.
pub const INITIAL_BASELINE_NOTE: &'static str = "Initial baseline (MIPRO round 0)";

/// Runs several rounds of instruction search.
#[derive(Debug)]
pub struct MiproOptimizer {
    pub num_rounds: usize,
    pub candidates_per_round: usize,
    pub target_fields: Vec<OptimizableField>,
}

impl MiproOptimizer {
    /// Three rounds of three candidates, targeting the agent's system prompt.
    pub fn new() -> (r: Self)
        ensures
            r.num_rounds == 3,
            r.candidates_per_round == 3,
            r.target_fields@ == seq![OptimizableField::AgentSystemPrompt],
    {
        let mut target_fields = Vec::new();
        target_fields.push(OptimizableField::AgentSystemPrompt);
        MiproOptimizer { num_rounds: 3, candidates_per_round: 3, target_fields }
    }

    /// Runs `rounds` rounds.
    pub fn with_rounds(self, rounds: usize) -> (r: Self)
        ensures
            r.num_rounds == rounds,
            r.candidates_per_round == self.candidates_per_round,
            r.target_fields == self.target_fields,
    {
        MiproOptimizer { num_rounds: rounds, ..self }
    }

    /// Asks for `n` candidates per field in each round.
    pub fn with_candidates_per_round(self, n: usize) -> (r: Self)
        ensures
            r.num_rounds == self.num_rounds,
            r.candidates_per_round == n,
            r.target_fields == self.target_fields,
    {
        MiproOptimizer { candidates_per_round: n, ..self }
    }

    /// Targets the fields `fields`, in order.
    pub fn with_target_fields(self, fields: Vec<OptimizableField>) -> (r: Self)
        ensures
            r.num_rounds == self.num_rounds,
            r.candidates_per_round == self.candidates_per_round,
            r.target_fields == fields,
    {
        MiproOptimizer { target_fields: fields, ..self }
    }

    /// Targets every optimizable field of `config`.
    pub fn with_all_fields(self, config: &AuraConfig) -> (r: Self)
        ensures
            r.num_rounds == self.num_rounds,
            r.candidates_per_round == self.candidates_per_round,
            crate::optimizer::field::lists_all_fields(*config, r.target_fields@),
    {
        MiproOptimizer { target_fields: OptimizableField::all_fields(config), ..self }
    }
}

/// Where a MIPRO run stands.
#[derive(Debug, Clone, Copy, PartialEq, Eq, Structural)]
pub enum MiproStage {
    /// Waiting for the evaluation of the input configuration.
    Baseline,
    /// A round of instruction search is under way.
    Round,
    /// A round is over and the next one has not begun.
    Between,
    /// Done.
    Finished,
}

/// The note that marks a candidate of round `r`.
pub open spec fn round_note(r: nat) -> Seq<char> {
    "MIPRO round "@ + decimal(r)
}

/// The optimizer name of a log entry from round `r`.
pub open spec fn round_optimizer(r: nat) -> Seq<char> {
    "MIPRO(round="@ + decimal(r) + ")/InstructionOptimizer"@
}

/// The candidates of a round, each with the round's note added.
pub open spec fn tag_round(cs: Seq<CandidateView>, r: nat) -> Seq<CandidateView> {
    cs.map_values(|c: CandidateView| CandidateView { notes: c.notes.push(round_note(r)), ..c })
}

/// The log entries of a round, each attributed to the round.
pub open spec fn rename_round(ls: Seq<LogView>, r: nat) -> Seq<LogView> {
    ls.map_values(|l: LogView| LogView { optimizer: round_optimizer(r), ..l })
}

/// The state of a MIPRO run, as plain values.
#[verifier::ext_equal]
pub struct MiproModel {
    pub base: AuraConfig,
    pub start: Seq<(OptimizableField, Seq<char>)>,
    pub fields: Seq<OptimizableField>,
    pub num_rounds: nat,
    pub per_round: nat,
    pub stage: MiproStage,
    /// The number of the current round.
    pub round: nat,
    /// The edits that make the best configuration so far.
    pub current: Seq<(OptimizableField, Seq<char>)>,
    pub best: u64,
    pub baseline: u64,
    pub candidates: Seq<CandidateView>,
    pub log: Seq<LogView>,
    /// The round's instruction search.
    pub inner: Option<InstructionModel>,
}

/// The state a MIPRO run starts in.
pub open spec fn mipro_initial(
    opt: MiproOptimizer,
    base: AuraConfig,
    start: Seq<(OptimizableField, Seq<char>)>,
) -> MiproModel {
    MiproModel {
        base,
        start,
        fields: opt.target_fields@,
        num_rounds: opt.num_rounds as nat,
        per_round: opt.candidates_per_round as nat,
        stage: MiproStage::Baseline,
        round: 0,
        current: start,
        best: 0,
        baseline: 0,
        candidates: seq![],
        log: seq![],
        inner: None,
    }
}

/// A finished MIPRO run: it has handed its findings over.
pub open spec fn mipro_finished(m: MiproModel) -> MiproModel {
    MiproModel {
        stage: MiproStage::Finished,
        candidates: seq![],
        log: seq![],
        inner: None,
        ..m
    }
}

/// The result of a MIPRO run: all candidates sorted by score, the first
/// of them the best.
pub open spec fn mipro_result(m: MiproModel) -> ResultView {
    let sorted = sort_by_score(m.candidates);
    ResultView {
        best_edits: sorted[0].edits,
        best_score: sorted[0].score,
        candidates: sorted,
        baseline_score: m.baseline,
        log: m.log,
    }
}

/// Starts round `r`, or finishes when the rounds are done.
pub open spec fn begin_round(m: MiproModel, r: nat) -> (MiproModel, InstructionActionView) {
    if r > m.num_rounds {
        (mipro_finished(m), InstructionActionView::Finish(mipro_result(m)))
    } else {
        (
            MiproModel {
                stage: MiproStage::Round,
                round: r,
                inner: Some(initial_model(m.fields, m.per_round, m.base, m.current)),
                ..m
            },
            InstructionActionView::Evaluate(m.current),
        )
    }
}

/// Takes in the result of the current round.
pub open spec fn absorb(m: MiproModel, rr: ResultView) -> MiproModel {
    let improved = rr.best_score > m.best;
    MiproModel {
        candidates: m.candidates + tag_round(rr.candidates, m.round),
        log: m.log + rename_round(rr.log, m.round),
        best: if improved {
            rr.best_score
        } else {
            m.best
        },
        current: if improved {
            rr.best_edits
        } else {
            m.current
        },
        inner: None,
        stage: MiproStage::Between,
        ..m
    }
}

/// The answer that `m` waits for has the kind of `e`.
pub open spec fn mipro_expects(m: MiproModel, e: InstructionEvent) -> bool {
    match m.stage {
        MiproStage::Baseline => e is Evaluated,
        MiproStage::Round => m.inner matches Some(i) && instruction_expects(i, e),
        MiproStage::Between | MiproStage::Finished => false,
    }
}

/// One step of a MIPRO run.
pub open spec fn mipro_step(m: MiproModel, e: InstructionEvent) -> (MiproModel, InstructionActionView) {
    match m.stage {
        MiproStage::Baseline => match e {
            InstructionEvent::Evaluated(ev) => {
                let avg = ev.average_bits;
                let m2 = MiproModel {
                    candidates: seq![
                        CandidateView {
                            edits: m.start,
                            score: avg,
                            run: ev.run as nat,
                            notes: seq![INITIAL_BASELINE_NOTE@],
                        },
                    ],
                    best: avg,
                    baseline: avg,
                    current: m.start,
                    ..m
                };
                begin_round(m2, 1)
            },
            _ => (m, InstructionActionView::FailOther),
        },
        _ => {
            let stepped = instruction_step(m.inner->0, e);
            match stepped.1 {
                InstructionActionView::Finish(rr) => begin_round(absorb(m, rr), m.round + 1),
                InstructionActionView::FailLlmResponse(msg) => (
                    mipro_finished(m),
                    InstructionActionView::FailLlmResponse(msg),
                ),
                InstructionActionView::FailOther => (
                    mipro_finished(m),
                    InstructionActionView::FailOther,
                ),
                a => (MiproModel { inner: Some(stepped.0), ..m }, a),
            }
        },
    }
}

/// What a well-formed MIPRO state satisfies.
pub open spec fn mipro_wf(m: MiproModel) -> bool {
    &&& m.stage == MiproStage::Round ==> (m.inner is Some && m.candidates.len() >= 1 && 1 <= m.round
        <= m.num_rounds)
    &&& m.stage != MiproStage::Round ==> m.inner is None
}

/// Whether `m` waits for an evaluation.
pub open spec fn mipro_awaits_evaluation(m: MiproModel) -> bool {
    m.stage == MiproStage::Baseline || (m.stage == MiproStage::Round && match m.inner {
        Some(i) => i.stage == InstructionStage::Baseline || i.stage == InstructionStage::Scoring,
        None => false,
    })
}

/// Whether `m` waits for a reply from the model.
pub open spec fn mipro_awaits_reply(m: MiproModel) -> bool {
    m.stage == MiproStage::Round && match m.inner {
        Some(i) => i.stage == InstructionStage::Proposing,
        None => false,
    }
}

/// A MIPRO run in progress.
pub struct MiproRun<'a> {
    base: &'a AuraConfig,
    start: Vec<Edit>,
    fields: Vec<OptimizableField>,
    num_rounds: usize,
    per_round: usize,
    stage: MiproStage,
    round: usize,
    current: Vec<Edit>,
    best: u64,
    baseline: u64,
    candidates: Vec<ScoredCandidate>,
    log: Vec<OptimizationLogEntry>,
    inner: Option<InstructionRun<'a>>,
}

impl<'a> View for MiproRun<'a> {
    type V = MiproModel;

    closed spec fn view(&self) -> MiproModel {
        MiproModel {
            base: *self.base,
            start: edits_view(self.start@),
            fields: self.fields@,
            num_rounds: self.num_rounds as nat,
            per_round: self.per_round as nat,
            stage: self.stage,
            round: self.round as nat,
            current: edits_view(self.current@),
            best: self.best,
            baseline: self.baseline,
            candidates: cands_view(self.candidates@),
            log: logs_view(self.log@),
            inner: match self.inner {
                Some(i) => Some(i@),
                None => None,
            },
        }
    }
}

/// The candidates `cs` with the note `note` added to each, after `into`.
fn append_tagged(into: &mut Vec<ScoredCandidate>, cs: Vec<ScoredCandidate>, note: &String)
    ensures
        cands_view(final(into)@) == cands_view(old(into)@) + cands_view(cs@).map_values(
            |c: CandidateView| CandidateView { notes: c.notes.push(note@), ..c },
        ),
{
    let ghost orig = cs@;
    let ghost first = cands_view(into@);
    let n = cs.len();
    let mut rest = cs;
    let mut k: usize = 0;
    assert(orig.skip(0) =~= orig);
    while rest.len() > 0
        invariant
            k <= orig.len(),
            n == orig.len(),
            rest@ == orig.skip(k as int),
            cands_view(into@) == first + cands_view(orig.take(k as int)).map_values(
                |c: CandidateView| CandidateView { notes: c.notes.push(note@), ..c },
            ),
        decreases rest.len(),
    {
        let mut c = rest.remove(0);
        assert(c == orig[k as int]);
        let ghost cv = c@;
        c.notes.push(note.clone());
        let ghost tagged = CandidateView { notes: cv.notes.push(note@), ..cv };
        assert(c@ =~= tagged);
        let ghost iv = cands_view(into@);
        into.push(c);
        assert(cands_view(into@) =~= iv.push(tagged));
        assert(cands_view(orig.take(k + 1)) =~= cands_view(orig.take(k as int)).push(cv));
        assert(cands_view(orig.take(k + 1)).map_values(
            |c: CandidateView| CandidateView { notes: c.notes.push(note@), ..c },
        ) =~= cands_view(orig.take(k as int)).map_values(
            |c: CandidateView| CandidateView { notes: c.notes.push(note@), ..c },
        ).push(tagged));
        assert(orig.skip(k + 1) =~= rest@);
        assert(cands_view(into@) =~= first + cands_view(orig.take(k + 1)).map_values(
            |c: CandidateView| CandidateView { notes: c.notes.push(note@), ..c },
        ));
        k = k + 1;
    }
    assert(orig.take(k as int) =~= orig);
}

/// The entries `ls` attributed to `name`, after `into`.
fn append_renamed(into: &mut Vec<OptimizationLogEntry>, ls: Vec<OptimizationLogEntry>, name: &String)
    ensures
        logs_view(final(into)@) == logs_view(old(into)@) + logs_view(ls@).map_values(
            |l: LogView| LogView { optimizer: name@, ..l },
        ),
{
    let ghost orig = ls@;
    let ghost first = logs_view(into@);
    let n = ls.len();
    let mut rest = ls;
    let mut k: usize = 0;
    assert(orig.skip(0) =~= orig);
    while rest.len() > 0
        invariant
            k <= orig.len(),
            n == orig.len(),
            rest@ == orig.skip(k as int),
            logs_view(into@) == first + logs_view(orig.take(k as int)).map_values(
                |l: LogView| LogView { optimizer: name@, ..l },
            ),
        decreases rest.len(),
    {
        let mut e = rest.remove(0);
        assert(e == orig[k as int]);
        let ghost ev = e@;
        e.optimizer = name.clone();
        let ghost renamed = LogView { optimizer: name@, ..ev };
        assert(e@ =~= renamed);
        let ghost iv = logs_view(into@);
        into.push(e);
        assert(logs_view(into@) =~= iv.push(renamed));
        assert(logs_view(orig.take(k + 1)) =~= logs_view(orig.take(k as int)).push(ev));
        assert(logs_view(orig.take(k + 1)).map_values(
            |l: LogView| LogView { optimizer: name@, ..l },
        ) =~= logs_view(orig.take(k as int)).map_values(
            |l: LogView| LogView { optimizer: name@, ..l },
        ).push(renamed));
        assert(orig.skip(k + 1) =~= rest@);
        assert(logs_view(into@) =~= first + logs_view(orig.take(k + 1)).map_values(
            |l: LogView| LogView { optimizer: name@, ..l },
        ));
        k = k + 1;
    }
    assert(orig.take(k as int) =~= orig);
}

impl<'a> MiproRun<'a> {
    #[verifier::type_invariant]
    spec fn well_formed(self) -> bool {
        mipro_wf(self@)
    }

    /// Starts a run of `opt` from the configuration that `start` makes of
    /// `base`; the first action evaluates that configuration.
    pub fn start(opt: MiproOptimizer, base: &'a AuraConfig, start: Vec<Edit>) -> (r: (
        Self,
        InstructionAction,
    ))
        ensures
            r.0@ == mipro_initial(opt, *base, edits_view(start@)),
            r.1@ == InstructionActionView::Evaluate(edits_view(start@)),
    {
        let first = clone_edits(&start);
        let current = clone_edits(&start);
        let run = MiproRun {
            base,
            start,
            fields: opt.target_fields,
            num_rounds: opt.num_rounds,
            per_round: opt.candidates_per_round,
            stage: MiproStage::Baseline,
            round: 0,
            current,
            best: 0,
            baseline: 0,
            candidates: Vec::new(),
            log: Vec::new(),
            inner: None,
        };
        assert(run@ =~= mipro_initial(opt, *base, edits_view(first@)));
        (run, InstructionAction::Evaluate(first))
    }

    /// Where the run stands.
    pub fn stage(&self) -> (r: MiproStage)
        ensures
            r == self@.stage,
    {
        self.stage
    }

    /// Whether the run waits for an evaluation.
    pub fn awaits_evaluation(&self) -> (r: bool)
        ensures
            r == mipro_awaits_evaluation(self@),
    {
        proof {
            use_type_invariant(self);
        }
        match &self.inner {
            Some(i) => self.stage == MiproStage::Baseline || (self.stage == MiproStage::Round
                && i.awaits_evaluation()),
            None => self.stage == MiproStage::Baseline,
        }
    }

    /// Whether the run waits for a reply from the model.
    pub fn awaits_reply(&self) -> (r: bool)
        ensures
            r == mipro_awaits_reply(self@),
    {
        match &self.inner {
            Some(i) => self.stage == MiproStage::Round && i.awaits_reply(),
            None => false,
        }
    }

    /// Starts the round after round `after`, or finishes after the last.
    fn begin_after(self, after: usize) -> (r: (Self, InstructionAction))
        requires
            self@.candidates.len() >= 1,
            self@.inner is None,
        ensures
            r.0@ == begin_round(self@, after as nat + 1).0,
            r.1@ == begin_round(self@, after as nat + 1).1,
    {
        let ghost m = self@;
        let MiproRun {
            base,
            start,
            fields,
            num_rounds,
            per_round,
            stage,
            round,
            current,
            best,
            baseline,
            candidates,
            log,
            inner,
        } = self;
        if after >= num_rounds {
            let sorted = sort_candidates(candidates);
            proof {
                lemma_sort_by_score(m.candidates);
            }
            let ghost sv = cands_view(sorted@);
            assert(sv[0] == sorted@[0]@);
            let best_edits = clone_edits(&sorted[0].edits);
            let best_score = sorted[0].score_bits;
            let result = OptimizationResult {
                best_edits,
                best_score_bits: best_score,
                candidates: sorted,
                baseline_score_bits: baseline,
                optimization_log: log,
            };
            let run = MiproRun {
                base,
                start,
                fields,
                num_rounds,
                per_round,
                stage: MiproStage::Finished,
                round,
                current,
                best,
                baseline,
                candidates: Vec::new(),
                log: Vec::new(),
                inner: None,
            };
            assert(run@ =~= mipro_finished(m));
            assert(result@ =~= mipro_result(m));
            (run, InstructionAction::Finish(result))
        } else {
            let r = after + 1;
            let opt = InstructionOptimizer {
                num_candidates: per_round,
                target_fields: clone_fields(&fields),
            };
            let (inner_run, action) = InstructionRun::start(opt, base, clone_edits(&current));
            let run = MiproRun {
                base,
                start,
                fields,
                num_rounds,
                per_round,
                stage: MiproStage::Round,
                round: r,
                current,
                best,
                baseline,
                candidates,
                log,
                inner: Some(inner_run),
            };
            assert(run@ =~= begin_round(m, after as nat + 1).0);
            (run, action)
        }
    }

    /// Takes the answer `event` to the last action and names the next action.
    pub fn step(self, event: InstructionEvent) -> (r: (Self, InstructionAction))
        requires
            mipro_expects(self@, event),
        ensures
            r.0@ == mipro_step(self@, event).0,
            r.1@ == mipro_step(self@, event).1,
    {
        proof {
            use_type_invariant(&self);
        }
        let ghost m = self@;
        let MiproRun {
            base,
            start,
            fields,
            num_rounds,
            per_round,
            stage,
            round,
            current,
            best,
            baseline,
            candidates,
            log,
            inner,
        } = self;
        if stage == MiproStage::Baseline {
            let ev = match event {
                InstructionEvent::Evaluated(ev) => ev,
                InstructionEvent::Replied(_) => {
                    assert(false);
                    return (
                        MiproRun {
                            base,
                            start,
                            fields,
                            num_rounds,
                            per_round,
                            stage,
                            round,
                            current,
                            best,
                            baseline,
                            candidates,
                            log,
                            inner,
                        },
                        InstructionAction::Fail(Error::Optimization(String::new())),
                    );
                },
            };
            let avg = ev.average_bits;
            let mut notes: Vec<String> = Vec::new();
            notes.push(owned(INITIAL_BASELINE_NOTE));
            assert(strings_view(notes@) =~= seq![INITIAL_BASELINE_NOTE@]);
            let cand = ScoredCandidate {
                edits: clone_edits(&start),
                score_bits: avg,
                run: ev.run,
                notes,
            };
            let ghost cv = CandidateView {
                edits: m.start,
                score: avg,
                run: ev.run as nat,
                notes: seq![INITIAL_BASELINE_NOTE@],
            };
            assert(cand@ =~= cv);
            let mut first: Vec<ScoredCandidate> = Vec::new();
            first.push(cand);
            assert(cands_view(first@) =~= seq![cv]);
            let run = MiproRun {
                base,
                current: clone_edits(&start),
                start,
                fields,
                num_rounds,
                per_round,
                stage,
                round,
                best: avg,
                baseline: avg,
                candidates: first,
                log,
                inner: None,
            };
            let ghost m2 = MiproModel {
                candidates: seq![cv],
                best: avg,
                baseline: avg,
                current: m.start,
                ..m
            };
            assert(run@ =~= m2);
            run.begin_after(0)
        } else {
            let inner_run = match inner {
                Some(i) => i,
                None => {
                    assert(false);
                    return (
                        MiproRun {
                            base,
                            start,
                            fields,
                            num_rounds,
                            per_round,
                            stage,
                            round,
                            current,
                            best,
                            baseline,
                            candidates,
                            log,
                            inner: None,
                        },
                        InstructionAction::Fail(Error::Optimization(String::new())),
                    );
                },
            };
            let (inner2, action) = inner_run.step(event);
            match action {
                InstructionAction::Finish(rr) => {
                    let ghost rv = rr@;
                    let improved = rr.best_score_bits > best;
                    let round_text = decimal_string(round);
                    let note = concat3("MIPRO round ", round_text.as_str(), "");
                    let name = concat3("MIPRO(round=", round_text.as_str(), ")/InstructionOptimizer");
                    proof {
                        reveal_strlit("");
                        assert(note@ =~= round_note(round as nat));
                    }
                    let OptimizationResult {
                        best_edits: rr_edits,
                        best_score_bits: rr_best,
                        candidates: rr_candidates,
                        baseline_score_bits: _,
                        optimization_log: rr_log,
                    } = rr;
                    let mut candidates = candidates;
                    append_tagged(&mut candidates, rr_candidates, &note);
                    let mut log = log;
                    append_renamed(&mut log, rr_log, &name);
                    let new_best = if improved {
                        rr_best
                    } else {
                        best
                    };
                    let new_current = if improved {
                        rr_edits
                    } else {
                        current
                    };
                    let run = MiproRun {
                        base,
                        start,
                        fields,
                        num_rounds,
                        per_round,
                        stage: MiproStage::Between,
                        round,
                        current: new_current,
                        best: new_best,
                        baseline,
                        candidates,
                        log,
                        inner: None,
                    };
                    assert(cands_view(rr_candidates@).map_values(
                        |c: CandidateView| CandidateView { notes: c.notes.push(note@), ..c },
                    ) =~= tag_round(rv.candidates, m.round));
                    assert(logs_view(rr_log@).map_values(
                        |l: LogView| LogView { optimizer: name@, ..l },
                    ) =~= rename_round(rv.log, m.round));
                    assert(run@ =~= absorb(m, rv));
                    run.begin_after(round)
                },
                InstructionAction::Fail(e) => {
                    let run = MiproRun {
                        base,
                        start,
                        fields,
                        num_rounds,
                        per_round,
                        stage: MiproStage::Finished,
                        round,
                        current,
                        best,
                        baseline,
                        candidates: Vec::new(),
                        log: Vec::new(),
                        inner: None,
                    };
                    assert(run@ =~= mipro_finished(m));
                    (run, InstructionAction::Fail(e))
                },
                other => {
                    let run = MiproRun {
                        base,
                        start,
                        fields,
                        num_rounds,
                        per_round,
                        stage,
                        round,
                        current,
                        best,
                        baseline,
                        candidates,
                        log,
                        inner: Some(inner2),
                    };
                    assert(run@ =~= MiproModel { inner: Some(inner2@), ..m });
                    (run, other)
                },
            }
        }
    }
}

/// Each log entry names the round it came from, one of rounds `1..=n`.
pub open spec fn log_rounds(log: Seq<LogView>, n: nat) -> bool {
    forall|i: int|
        0 <= i < log.len() ==> exists|k: nat|
            1 <= k <= n && (#[trigger] log[i]).optimizer == round_optimizer(k)
}

/// What holds of every state a MIPRO run reaches: once the baseline is
/// in, the first candidate is the baseline, and a round's search satisfies
/// its own invariant.
pub open spec fn mipro_inv(m: MiproModel) -> bool {
    &&& mipro_wf(m)
    &&& log_rounds(m.log, m.num_rounds)
    &&& (m.stage == MiproStage::Round || m.stage == MiproStage::Between) ==> (m.candidates.len()
        >= 1 && m.candidates[0].score == m.baseline)
    &&& m.inner matches Some(i) ==> instruction_inv(i)
    &&& mipro_edits_ok(m)
}

/// The best edits so far and every candidate's edits are the run's start
/// edits followed by edits of its target fields only, and the round's
/// search, if any, targets exactly those fields from the best edits so far.
pub open spec fn mipro_edits_ok(m: MiproModel) -> bool {
    &&& extends_with(m.current, m.start, m.fields)
    &&& forall|k: int|
        0 <= k < m.candidates.len() ==> extends_with(#[trigger] m.candidates[k].edits, m.start, m.fields)
    &&& m.inner matches Some(i) ==> i.fields == m.fields && i.start == m.current && i.base == m.base
}

proof fn lemma_mipro_result(m: MiproModel)
    requires
        m.candidates.len() >= 1,
        m.candidates[0].score == m.baseline,
    ensures
        result_keeps_best(mipro_result(m)),
        result_sorted(mipro_result(m)),
{
    let sorted = sort_by_score(m.candidates);
    lemma_sort_by_score(m.candidates);
    assert forall|i: int| 0 <= i < sorted.len() implies (#[trigger] sorted[i]).score <= sorted[0].score by {
        if i > 0 {
        }
    }
    assert(m.candidates.contains(m.candidates[0]));
    assert(sorted.contains(m.candidates[0]));
    let r = mipro_result(m);
    assert(r.candidates[0].edits == r.best_edits);
}

proof fn lemma_begin_round(m: MiproModel, r: nat)
    requires
        m.candidates.len() >= 1,
        m.candidates[0].score == m.baseline,
        m.inner is None,
        r >= 1,
        log_rounds(m.log, m.num_rounds),
        mipro_edits_ok(m),
    ensures
        mipro_inv(begin_round(m, r).0),
        finishes_well(begin_round(m, r).1),
        begin_round(m, r).1 matches InstructionActionView::Finish(res) ==> log_rounds(
            res.log,
            m.num_rounds,
        ),
        actions_extend(m.start, m.fields, begin_round(m, r).1),
{
    if r > m.num_rounds {
        lemma_mipro_result(m);
        let sorted = sort_by_score(m.candidates);
        lemma_sort_by_score(m.candidates);
        assert forall|i: int| 0 <= i < sorted.len() implies extends_with(
            #[trigger] sorted[i].edits,
            m.start,
            m.fields,
        ) by {
            assert(sorted.contains(sorted[i]));
            assert(m.candidates.contains(sorted[i]));
            let j = choose|j: int| 0 <= j < m.candidates.len() && m.candidates[j] == sorted[i];
            assert(extends_with(m.candidates[j].edits, m.start, m.fields));
        }
        assert(extends_with(sorted[0].edits, m.start, m.fields));
    } else {
        law_instruction_start(m.fields, m.per_round, m.base, m.current);
    }
}

/// Every state a MIPRO run reaches satisfies `mipro_inv`, and a step that
/// finishes hands over a result that never scores below the baseline, in
/// which no candidate scored higher than the best, and whose best edits
/// made a candidate with the best score.
pub proof fn law_mipro_run(m: MiproModel, e: InstructionEvent)
    requires
        mipro_inv(m),
        mipro_expects(m, e),
    ensures
        mipro_inv(mipro_step(m, e).0),
        finishes_well(mipro_step(m, e).1),
        mipro_step(m, e).1 matches InstructionActionView::Finish(r) ==> log_rounds(
            r.log,
            m.num_rounds,
        ),
        mipro_step(m, e).0.inner matches Some(i) ==> i.fields == m.fields,
        actions_extend(m.start, m.fields, mipro_step(m, e).1),
        mipro_step(m, e).0.start == m.start,
        mipro_step(m, e).0.fields == m.fields,
{
    match m.stage {
        MiproStage::Baseline => {
            let ev = e->Evaluated_0;
            let avg = ev.average_bits;
            let m2 = MiproModel {
                candidates: seq![
                    CandidateView {
                        edits: m.start,
                        score: avg,
                        run: ev.run as nat,
                        notes: seq![INITIAL_BASELINE_NOTE@],
                    },
                ],
                best: avg,
                baseline: avg,
                current: m.start,
                ..m
            };
            lemma_extends_refl(m.start, m.fields);
            lemma_begin_round(m2, 1);
        },
        _ => {
            let inner = m.inner->0;
            law_instruction_search(inner, e);
            let stepped = instruction_step(inner, e);
            match stepped.1 {
                InstructionActionView::Finish(rr) => {
                    let m2 = absorb(m, rr);
                    assert(m2.candidates[0] == m.candidates[0]);
                    let renamed = rename_round(rr.log, m.round);
                    assert forall|i: int| 0 <= i < m2.log.len() implies exists|k: nat|
                        1 <= k <= m.num_rounds && (#[trigger] m2.log[i]).optimizer
                            == round_optimizer(k) by {
                        if i < m.log.len() {
                            assert(m2.log[i] == m.log[i]);
                        } else {
                            assert(m2.log[i] == renamed[i - m.log.len()]);
                        }
                    }
                    let tagged = tag_round(rr.candidates, m.round);
                    assert forall|k: int| 0 <= k < m2.candidates.len() implies extends_with(
                        #[trigger] m2.candidates[k].edits,
                        m.start,
                        m.fields,
                    ) by {
                        if k < m.candidates.len() {
                            assert(m2.candidates[k] == m.candidates[k]);
                        } else {
                            let q = k - m.candidates.len();
                            assert(m2.candidates[k] == tagged[q]);
                            assert(tagged[q].edits == rr.candidates[q].edits);
                            lemma_extends_trans(m.start, m.current, rr.candidates[q].edits, m.fields);
                        }
                    }
                    lemma_extends_trans(m.start, m.current, rr.best_edits, m.fields);
                    lemma_begin_round(m2, m.round + 1);
                },
                InstructionActionView::Evaluate(edits) => {
                    lemma_extends_trans(m.start, m.current, edits, m.fields);
                },
                _ => {},
            }
        },
    }
}

/// A MIPRO run starts in a state that satisfies `mipro_inv`.
pub proof fn law_mipro_start(
    opt: MiproOptimizer,
    base: AuraConfig,
    start: Seq<(OptimizableField, Seq<char>)>,
)
    ensures
        mipro_inv(mipro_initial(opt, base, start)),
{
    lemma_extends_refl(start, opt.target_fields@);
}

/// The state after answering each of `es` in turn from `m`, and the last
/// action (`FailOther` when no answer was given).
pub open spec fn mipro_run(m: MiproModel, es: Seq<InstructionEvent>) -> (MiproModel, InstructionActionView)
    decreases es.len(),
{
    if es.len() == 0 {
        (m, InstructionActionView::FailOther)
    } else {
        mipro_step(mipro_run(m, es.drop_last()).0, es.last())
    }
}

/// Each of `es` answers the action that the state it meets waits for.
pub open spec fn mipro_answers(m: MiproModel, es: Seq<InstructionEvent>) -> bool
    decreases es.len(),
{
    es.len() == 0 || (mipro_answers(m, es.drop_last()) && mipro_expects(
        mipro_run(m, es.drop_last()).0,
        es.last(),
    ))
}

/// Over a whole run of answers from a state that satisfies `mipro_inv`
/// (such as the starting state), every state reached satisfies it, and a
/// finishing last action hands over a result that keeps the best, lists its
/// candidates by decreasing score with the best first, and whose log
/// entries each name a round from 1 to the number of rounds.
pub proof fn law_mipro_whole_run(m: MiproModel, es: Seq<InstructionEvent>)
    requires
        mipro_inv(m),
        mipro_answers(m, es),
    ensures
        mipro_inv(mipro_run(m, es).0),
        mipro_run(m, es).0.num_rounds == m.num_rounds,
        es.len() > 0 ==> finishes_well(mipro_run(m, es).1),
        es.len() > 0 ==> (mipro_run(m, es).1 matches InstructionActionView::Finish(r) ==> log_rounds(
            r.log,
            m.num_rounds,
        )),
    decreases es.len(),
{
    if es.len() > 0 {
        law_mipro_whole_run(m, es.drop_last());
        let p = mipro_run(m, es.drop_last()).0;
        law_mipro_run(p, es.last());
    }
}

} // verus!
