//! The full optimization pipeline: few-shot bootstrapping of the agent's
//! system prompt, then instruction search over the prompt fields.
use vstd::prelude::*;
use crate::config::schema::AuraConfig;
use crate::error::Error;
use crate::optimizer::field::{OptimizableField, lists_all_fields, targets_orchestration};
use crate::optimizer::bootstrap::{BootstrapFewShot, BootstrapRun, BootstrapModel, BootstrapAction,
    BootstrapActionView, BootstrapStage, bootstrap_initial, bootstrap_step, bootstrap_inv,
    law_bootstrap_run, law_bootstrap_start, DEFAULT_PASS_THRESHOLD_BITS};
use crate::optimizer::instruction_search::{InstructionOptimizer, InstructionRun, InstructionModel,
    InstructionAction, InstructionActionView, InstructionEvent, InstructionStage, initial_model,
    instruction_step, instruction_expects, instruction_inv, finishes_well, finish_log_ok, log_chain,
    law_instruction_search, law_instruction_start};
use crate::optimizer::run::{Edit, OptimizationLogEntry, LogView, ResultView, edits_view, logs_view,
    clone_edits, clone_fields, result_keeps_best, result_sorted};

verus! {

/// Runs the optimizers in sequence on a configuration.  Scores and the pass
/// threshold are held as the bit patterns of `f64` values (scores are
/// non-negative; the threshold is compared as `score_reaches` says).
#[derive(Debug)]
pub struct AuraOptimizer {
    pub pass_threshold_bits: u64,
    pub max_bootstrap_examples: usize,
    pub instruction_candidates: usize,
}

impl AuraOptimizer {
    /// Threshold 0.7, at most five few-shot examples, three candidates per field.
    pub fn new() -> (r: Self)
        ensures
            r.pass_threshold_bits == DEFAULT_PASS_THRESHOLD_BITS,
            r.max_bootstrap_examples == 5,
            r.instruction_candidates == 3,
    {
        AuraOptimizer {
            pass_threshold_bits: DEFAULT_PASS_THRESHOLD_BITS,
            max_bootstrap_examples: 5,
            instruction_candidates: 3,
        }
    }

    /// Uses the pass threshold whose bit pattern is `bits`.
    pub fn with_pass_threshold_bits(self, bits: u64) -> (r: Self)
        ensures
            r.pass_threshold_bits == bits,
            r.max_bootstrap_examples == self.max_bootstrap_examples,
            r.instruction_candidates == self.instruction_candidates,
    {
        AuraOptimizer { pass_threshold_bits: bits, ..self }
    }
}

/// What the pipeline found: the edits that make the final configuration,
/// every optimization decision in order, the baseline score of the input
/// configuration and the final score.
#[derive(Debug)]
pub struct PipelineOutcome {
    pub best_edits: Vec<Edit>,
    pub log: Vec<OptimizationLogEntry>,
    pub baseline_score_bits: u64,
    pub best_score_bits: u64,
}

/// A pipeline outcome, as plain values.
#[verifier::ext_equal]
pub struct PipelineOutcomeView {
    pub best_edits: Seq<(OptimizableField, Seq<char>)>,
    pub log: Seq<LogView>,
    pub baseline_score: u64,
    pub best_score: u64,
}

impl View for PipelineOutcome {
    type V = PipelineOutcomeView;

    open spec fn view(&self) -> PipelineOutcomeView {
        PipelineOutcomeView {
            best_edits: edits_view(self.best_edits@),
            log: logs_view(self.log@),
            baseline_score: self.baseline_score_bits,
            best_score: self.best_score_bits,
        }
    }
}

/// What the caller must do next.
#[derive(Debug)]
pub enum PipelineAction {
    /// Evaluate the configuration these edits make of the input, and answer
    /// with `Evaluated`.
    Evaluate(Vec<Edit>),
    /// Send these messages to the model, and answer with `Replied`.
    Ask(Vec<crate::llm::client::ChatMessage>),
    /// The pipeline is over.
    Finish(PipelineOutcome),
    /// The pipeline failed.
    Fail(Error),
}

/// A pipeline action, as plain values.
pub enum PipelineActionView {
    Evaluate(Seq<(OptimizableField, Seq<char>)>),
    Ask(Seq<(Seq<char>, Seq<char>)>),
    Finish(PipelineOutcomeView),
    FailLlmResponse(Seq<char>),
    FailOther,
}

impl View for PipelineAction {
    type V = PipelineActionView;

    open spec fn view(&self) -> PipelineActionView {
        match self {
            PipelineAction::Evaluate(e) => PipelineActionView::Evaluate(edits_view(e@)),
            PipelineAction::Ask(m) => PipelineActionView::Ask(
                crate::optimizer::instruction_search::messages_view(m@),
            ),
            PipelineAction::Finish(o) => PipelineActionView::Finish(o@),
            PipelineAction::Fail(Error::LlmResponse(m)) => PipelineActionView::FailLlmResponse(m@),
            PipelineAction::Fail(_) => PipelineActionView::FailOther,
        }
    }
}

/// Where the pipeline stands.
#[derive(Debug, Clone, Copy, PartialEq, Eq, Structural)]
pub enum PipelineStage {
    Bootstrap,
    Instruction,
    Finished,
}

/// The state of the pipeline, as plain values.
#[verifier::ext_equal]
pub struct PipelineModel {
    pub base: AuraConfig,
    /// The fields the instruction search targets.
    pub fields: Seq<OptimizableField>,
    pub candidates: nat,
    pub stage: PipelineStage,
    pub boot: BootstrapModel,
    pub search: Option<InstructionModel>,
    /// The log of the bootstrap stage.
    pub boot_log: Seq<LogView>,
    /// The baseline score of the input configuration.
    pub baseline: u64,
}

/// The fields the instruction search targets for `c`: all of them when
/// some belong to orchestration, else the system prompt alone.
pub open spec fn search_fields(c: AuraConfig, all: Seq<OptimizableField>) -> Seq<OptimizableField> {
    if exists|i: int| 0 <= i < all.len() && !(#[trigger] all[i] is AgentSystemPrompt) {
        all
    } else {
        seq![OptimizableField::AgentSystemPrompt]
    }
}

/// One step of the pipeline.
pub open spec fn pipeline_step(m: PipelineModel, e: InstructionEvent) -> (PipelineModel, PipelineActionView) {
    match m.stage {
        PipelineStage::Bootstrap => match e {
            InstructionEvent::Evaluated(ev) => {
                let stepped = bootstrap_step(m.boot, ev);
                match stepped.1 {
                    BootstrapActionView::Evaluate(edits) => (
                        PipelineModel { boot: stepped.0, ..m },
                        PipelineActionView::Evaluate(edits),
                    ),
                    BootstrapActionView::Finish(br) => (
                        PipelineModel {
                            stage: PipelineStage::Instruction,
                            boot: stepped.0,
                            search: Some(
                                initial_model(m.fields, m.candidates, m.base, br.best_edits),
                            ),
                            boot_log: br.log,
                            baseline: br.baseline_score,
                            ..m
                        },
                        PipelineActionView::Evaluate(br.best_edits),
                    ),
                }
            },
            _ => (m, PipelineActionView::FailOther),
        },
        _ => {
            let stepped = instruction_step(m.search->0, e);
            match stepped.1 {
                InstructionActionView::Evaluate(edits) => (
                    PipelineModel { search: Some(stepped.0), ..m },
                    PipelineActionView::Evaluate(edits),
                ),
                InstructionActionView::Ask(msgs) => (
                    PipelineModel { search: Some(stepped.0), ..m },
                    PipelineActionView::Ask(msgs),
                ),
                InstructionActionView::Finish(ir) => (
                    PipelineModel { stage: PipelineStage::Finished, search: None, boot_log: seq![], ..m },
                    PipelineActionView::Finish(
                        PipelineOutcomeView {
                            best_edits: ir.best_edits,
                            log: m.boot_log + ir.log,
                            baseline_score: m.baseline,
                            best_score: ir.best_score,
                        },
                    ),
                ),
                InstructionActionView::FailLlmResponse(msg) => (
                    PipelineModel { stage: PipelineStage::Finished, search: None, boot_log: seq![], ..m },
                    PipelineActionView::FailLlmResponse(msg),
                ),
                InstructionActionView::FailOther => (
                    PipelineModel { stage: PipelineStage::Finished, search: None, boot_log: seq![], ..m },
                    PipelineActionView::FailOther,
                ),
            }
        },
    }
}

/// The answer that `m` waits for has the kind of `e`.
pub open spec fn pipeline_expects(m: PipelineModel, e: InstructionEvent) -> bool {
    match m.stage {
        PipelineStage::Bootstrap => e is Evaluated,
        PipelineStage::Instruction => m.search matches Some(s) && instruction_expects(s, e),
        PipelineStage::Finished => false,
    }
}

/// What a well-formed pipeline state satisfies.
pub open spec fn pipeline_wf(m: PipelineModel) -> bool {
    &&& m.stage == PipelineStage::Bootstrap ==> m.boot.stage != BootstrapStage::Finished
    &&& m.stage == PipelineStage::Instruction <==> m.search is Some
}

/// The pipeline in progress.
pub struct PipelineRun<'a> {
    base: &'a AuraConfig,
    fields: Vec<OptimizableField>,
    candidates: usize,
    stage: PipelineStage,
    boot: BootstrapRun<'a>,
    search: Option<InstructionRun<'a>>,
    boot_log: Vec<OptimizationLogEntry>,
    baseline: u64,
}

impl<'a> View for PipelineRun<'a> {
    type V = PipelineModel;

    closed spec fn view(&self) -> PipelineModel {
        PipelineModel {
            base: *self.base,
            fields: self.fields@,
            candidates: self.candidates as nat,
            stage: self.stage,
            boot: self.boot@,
            search: match self.search {
                Some(s) => Some(s@),
                None => None,
            },
            boot_log: logs_view(self.boot_log@),
            baseline: self.baseline,
        }
    }
}

impl<'a> PipelineRun<'a> {
    #[verifier::type_invariant]
    spec fn well_formed(self) -> bool {
        pipeline_wf(self@)
    }

    /// Starts the pipeline of `opt` on `base`; the first action evaluates
    /// `base` itself.
    pub fn start(opt: &AuraOptimizer, base: &'a AuraConfig) -> (r: (Self, PipelineAction))
        ensures
            r.0@.base == *base,
            r.0@.stage == PipelineStage::Bootstrap,
            r.0@.candidates == opt.instruction_candidates,
            r.0@.search is None,
            r.0@.boot_log.len() == 0,
            r.0@.boot == bootstrap_initial(
                BootstrapFewShot {
                    pass_threshold_bits: opt.pass_threshold_bits,
                    max_examples: opt.max_bootstrap_examples,
                    target_field: OptimizableField::AgentSystemPrompt,
                },
                *base,
                seq![],
            ),
            exists|all: Seq<OptimizableField>|
                lists_all_fields(*base, all) && r.0@.fields == search_fields(*base, all),
            r.1@ == PipelineActionView::Evaluate(seq![]),
    {
        let all = OptimizableField::all_fields(base);
        let fields = if targets_orchestration(&all) {
            all
        } else {
            let mut only: Vec<OptimizableField> = Vec::new();
            only.push(OptimizableField::AgentSystemPrompt);
            only
        };
        assert(fields@ =~= search_fields(*base, all@));
        let boot_opt = BootstrapFewShot {
            pass_threshold_bits: opt.pass_threshold_bits,
            max_examples: opt.max_bootstrap_examples,
            target_field: OptimizableField::AgentSystemPrompt,
        };
        let no_edits: Vec<Edit> = Vec::new();
        assert(edits_view(no_edits@) =~= Seq::<(OptimizableField, Seq<char>)>::empty());
        let (boot, first) = BootstrapRun::start(boot_opt, base, no_edits);
        let run = PipelineRun {
            base,
            fields,
            candidates: opt.instruction_candidates,
            stage: PipelineStage::Bootstrap,
            boot,
            search: None,
            boot_log: Vec::new(),
            baseline: 0,
        };
        let action = match first {
            BootstrapAction::Evaluate(e) => PipelineAction::Evaluate(e),
            BootstrapAction::Finish(_) => PipelineAction::Fail(Error::Optimization(String::new())),
        };
        (run, action)
    }

    /// Where the pipeline stands.
    pub fn stage(&self) -> (r: PipelineStage)
        ensures
            r == self@.stage,
    {
        self.stage
    }

    /// Whether the pipeline waits for an evaluation.
    pub fn awaits_evaluation(&self) -> (r: bool)
        ensures
            r == (self@.stage == PipelineStage::Bootstrap || (self@.stage
                == PipelineStage::Instruction && match self@.search {
                Some(s) => s.stage == InstructionStage::Baseline || s.stage
                    == InstructionStage::Scoring,
                None => false,
            })),
    {
        match &self.search {
            Some(s) => self.stage == PipelineStage::Bootstrap || (self.stage
                == PipelineStage::Instruction && s.awaits_evaluation()),
            None => self.stage == PipelineStage::Bootstrap,
        }
    }

    /// Whether the pipeline waits for a reply from the model.
    pub fn awaits_reply(&self) -> (r: bool)
        ensures
            r == (self@.stage == PipelineStage::Instruction && match self@.search {
                Some(s) => s.stage == InstructionStage::Proposing,
                None => false,
            }),
    {
        match &self.search {
            Some(s) => self.stage == PipelineStage::Instruction && s.awaits_reply(),
            None => false,
        }
    }

    /// Takes the answer `event` to the last action and names the next action.
    pub fn step(self, event: InstructionEvent) -> (r: (Self, PipelineAction))
        requires
            pipeline_expects(self@, event),
        ensures
            r.0@ == pipeline_step(self@, event).0,
            r.1@ == pipeline_step(self@, event).1,
    {
        proof {
            use_type_invariant(&self);
        }
        let ghost m = self@;
        let PipelineRun { base, fields, candidates, stage, boot, search, boot_log, baseline } = self;
        if stage == PipelineStage::Bootstrap {
            let ev = match event {
                InstructionEvent::Evaluated(ev) => ev,
                InstructionEvent::Replied(_) => {
                    assert(false);
                    return (
                        PipelineRun { base, fields, candidates, stage, boot, search, boot_log, baseline },
                        PipelineAction::Fail(Error::Optimization(String::new())),
                    );
                },
            };
            let (boot2, action) = boot.step(ev);
            match action {
                BootstrapAction::Evaluate(edits) => {
                    proof {
                        assert(boot2@.stage != BootstrapStage::Finished);
                    }
                    let run = PipelineRun {
                        base,
                        fields,
                        candidates,
                        stage,
                        boot: boot2,
                        search,
                        boot_log,
                        baseline,
                    };
                    assert(run@ =~= pipeline_step(m, InstructionEvent::Evaluated(ev)).0);
                    (run, PipelineAction::Evaluate(edits))
                },
                BootstrapAction::Finish(br) => {
                    let ghost brv = br@;
                    let first = clone_edits(&br.best_edits);
                    let opt = InstructionOptimizer {
                        num_candidates: candidates,
                        target_fields: clone_fields(&fields),
                    };
                    let (search_run, _) = InstructionRun::start(opt, base, br.best_edits);
                    let run = PipelineRun {
                        base,
                        fields,
                        candidates,
                        stage: PipelineStage::Instruction,
                        boot: boot2,
                        search: Some(search_run),
                        boot_log: br.optimization_log,
                        baseline: br.baseline_score_bits,
                    };
                    assert(run@ =~= pipeline_step(m, InstructionEvent::Evaluated(ev)).0);
                    (run, PipelineAction::Evaluate(first))
                },
            }
        } else {
            let search_run = match search {
                Some(s) => s,
                None => {
                    assert(false);
                    return (
                        PipelineRun { base, fields, candidates, stage, boot, search: None, boot_log, baseline },
                        PipelineAction::Fail(Error::Optimization(String::new())),
                    );
                },
            };
            let (search2, action) = search_run.step(event);
            match action {
                InstructionAction::Evaluate(edits) => {
                    let run = PipelineRun {
                        base,
                        fields,
                        candidates,
                        stage,
                        boot,
                        search: Some(search2),
                        boot_log,
                        baseline,
                    };
                    assert(run@ =~= pipeline_step(m, event).0);
                    (run, PipelineAction::Evaluate(edits))
                },
                InstructionAction::Ask(msgs) => {
                    let run = PipelineRun {
                        base,
                        fields,
                        candidates,
                        stage,
                        boot,
                        search: Some(search2),
                        boot_log,
                        baseline,
                    };
                    assert(run@ =~= pipeline_step(m, event).0);
                    (run, PipelineAction::Ask(msgs))
                },
                InstructionAction::Finish(ir) => {
                    let ghost irv = ir@;
                    let mut log = boot_log;
                    let mut rest = ir.optimization_log;
                    let ghost boot_view = logs_view(log@);
                    let ghost rest_view = logs_view(rest@);
                    log.append(&mut rest);
                    assert(logs_view(log@) =~= boot_view + rest_view);
                    let outcome = PipelineOutcome {
                        best_edits: ir.best_edits,
                        log,
                        baseline_score_bits: baseline,
                        best_score_bits: ir.best_score_bits,
                    };
                    let run = PipelineRun {
                        base,
                        fields,
                        candidates,
                        stage: PipelineStage::Finished,
                        boot,
                        search: None,
                        boot_log: Vec::new(),
                        baseline,
                    };
                    assert(run@ =~= pipeline_step(m, event).0);
                    assert(outcome@ =~= PipelineOutcomeView {
                        best_edits: irv.best_edits,
                        log: m.boot_log + irv.log,
                        baseline_score: m.baseline,
                        best_score: irv.best_score,
                    });
                    (run, PipelineAction::Finish(outcome))
                },
                InstructionAction::Fail(e) => {
                    let run = PipelineRun {
                        base,
                        fields,
                        candidates,
                        stage: PipelineStage::Finished,
                        boot,
                        search: None,
                        boot_log: Vec::new(),
                        baseline,
                    };
                    assert(run@ =~= pipeline_step(m, event).0);
                    (run, PipelineAction::Fail(e))
                },
            }
        }
    }
}

/// What holds of every state the pipeline reaches: the running stage's
/// state satisfies that optimizer's invariant.
pub open spec fn pipeline_inv(m: PipelineModel) -> bool {
    &&& pipeline_wf(m)
    &&& m.stage == PipelineStage::Bootstrap ==> bootstrap_inv(m.boot)
    &&& m.stage == PipelineStage::Instruction ==> (m.search matches Some(s) && instruction_inv(s))
}

/// The outcome `o` is what the instruction search's result `r` found,
/// after the bootstrap stage's log and with its baseline.
pub open spec fn outcome_of(m: PipelineModel, r: ResultView, o: PipelineOutcomeView) -> bool {
    &&& result_keeps_best(r)
    &&& result_sorted(r)
    &&& log_chain(r.log, r.baseline_score, r.best_score)
    &&& o.best_edits == r.best_edits
    &&& o.best_score == r.best_score
    &&& o.log == m.boot_log + r.log
    &&& o.baseline_score == m.baseline
}

/// A finishing action's outcome is what some instruction search result
/// found, in the sense of `outcome_of`.
pub open spec fn finishes_as_outcome(m: PipelineModel, a: PipelineActionView) -> bool {
    a matches PipelineActionView::Finish(o) ==> exists|r: ResultView| #[trigger] outcome_of(m, r, o)
}

/// The pipeline starts in a state that satisfies `pipeline_inv`, and each
/// step keeps it.  When it finishes, its outcome is the result of the
/// instruction search that ran on the bootstrap stage's best configuration:
/// that result never scores below its own baseline, lists its candidates by
/// decreasing score with the best first, and chains its log from its
/// baseline to its best; the outcome's log is the bootstrap log followed by
/// the search's log, and its baseline is the bootstrap stage's baseline.
#[verifier::spinoff_prover]
pub proof fn law_pipeline_run(m: PipelineModel, e: InstructionEvent)
    requires
        pipeline_inv(m),
        pipeline_expects(m, e),
    ensures
        pipeline_inv(pipeline_step(m, e).0),
        finishes_as_outcome(m, pipeline_step(m, e).1),
{
    match m.stage {
        PipelineStage::Bootstrap => {
            let ev = e->Evaluated_0;
            law_bootstrap_run(m.boot, ev);
            let stepped = bootstrap_step(m.boot, ev);
            match stepped.1 {
                BootstrapActionView::Finish(br) => {
                    law_instruction_start(m.fields, m.candidates, m.base, br.best_edits);
                    assert(pipeline_step(m, e).1 is Evaluate);
                },
                _ => {
                    assert(pipeline_step(m, e).1 is Evaluate);
                },
            }
        },
        _ => {
            let s = m.search->0;
            law_instruction_search(s, e);
            let stepped = instruction_step(s, e);
            match stepped.1 {
                InstructionActionView::Finish(ir) => {
                    let o = PipelineOutcomeView {
                        best_edits: ir.best_edits,
                        log: m.boot_log + ir.log,
                        baseline_score: m.baseline,
                        best_score: ir.best_score,
                    };
                    assert(pipeline_step(m, e).1 == PipelineActionView::Finish(o));
                    assert(result_keeps_best(ir));
                    assert(result_sorted(ir));
                    assert(log_chain(ir.log, ir.baseline_score, ir.best_score));
                    assert(outcome_of(m, ir, o));
                    let o2 = pipeline_step(m, e).1->Finish_0;
                    assert(o2 == o);
                    assert(outcome_of(m, ir, o2));
                    assert(finishes_as_outcome(m, pipeline_step(m, e).1));
                },
                _ => {
                    assert(!(pipeline_step(m, e).1 is Finish));
                },
            }
        },
    }
}

/// The pipeline's starting state satisfies `pipeline_inv`.
pub proof fn law_pipeline_start(
    opt: AuraOptimizer,
    base: AuraConfig,
    fields: Seq<OptimizableField>,
)
    ensures
        pipeline_inv(
            PipelineModel {
                base,
                fields,
                candidates: opt.instruction_candidates as nat,
                stage: PipelineStage::Bootstrap,
                boot: bootstrap_initial(
                    BootstrapFewShot {
                        pass_threshold_bits: opt.pass_threshold_bits,
                        max_examples: opt.max_bootstrap_examples,
                        target_field: OptimizableField::AgentSystemPrompt,
                    },
                    base,
                    seq![],
                ),
                search: None,
                boot_log: seq![],
                baseline: 0,
            },
        ),
{
    law_bootstrap_start(
        BootstrapFewShot {
            pass_threshold_bits: opt.pass_threshold_bits,
            max_examples: opt.max_bootstrap_examples,
            target_field: OptimizableField::AgentSystemPrompt,
        },
        base,
        seq![],
    );
}

/// The state after answering each of `es` in turn from `m`, and the last
/// action (`FailOther` when no answer was given).
pub open spec fn pipeline_run(m: PipelineModel, es: Seq<InstructionEvent>) -> (
    PipelineModel,
    PipelineActionView,
)
    decreases es.len(),
{
    if es.len() == 0 {
        (m, PipelineActionView::FailOther)
    } else {
        pipeline_step(pipeline_run(m, es.drop_last()).0, es.last())
    }
}

/// Each of `es` answers the action that the state it meets waits for.
pub open spec fn pipeline_answers(m: PipelineModel, es: Seq<InstructionEvent>) -> bool
    decreases es.len(),
{
    es.len() == 0 || (pipeline_answers(m, es.drop_last()) && pipeline_expects(
        pipeline_run(m, es.drop_last()).0,
        es.last(),
    ))
}

/// Over a whole run of answers from a state that satisfies `pipeline_inv`
/// (such as the starting state), every state reached satisfies it, and a
/// finishing last action's outcome is, in the sense of `outcome_of`, what
/// the instruction search found after the bootstrap stage.
pub proof fn law_pipeline_whole_run(m: PipelineModel, es: Seq<InstructionEvent>)
    requires
        pipeline_inv(m),
        pipeline_answers(m, es),
    ensures
        pipeline_inv(pipeline_run(m, es).0),
        es.len() > 0 ==> finishes_as_outcome(
            pipeline_run(m, es.drop_last()).0,
            pipeline_run(m, es).1,
        ),
    decreases es.len(),
{
    if es.len() > 0 {
        law_pipeline_whole_run(m, es.drop_last());
        let p = pipeline_run(m, es.drop_last()).0;
        law_pipeline_run(p, es.last());
    }
}

/// After the answers `es` (at least one) from a pipeline that had not yet
/// evaluated anything, the baseline it holds, or hands over, is the average
/// of the first answer, the evaluation of the unedited input.
proof fn lemma_pipeline_keeps_first_average(m: PipelineModel, es: Seq<InstructionEvent>)
    requires
        pipeline_inv(m),
        m.stage == PipelineStage::Bootstrap,
        m.boot.stage == BootstrapStage::Baseline,
        pipeline_answers(m, es),
        es.len() > 0,
    ensures
        ({
            let avg = es[0]->Evaluated_0.average_bits;
            let st = pipeline_run(m, es);
            &&& es[0] is Evaluated
            &&& st.0.stage == PipelineStage::Bootstrap ==> st.0.boot.stage == BootstrapStage::Trial
                && st.0.boot.baseline == avg
            &&& st.0.stage != PipelineStage::Bootstrap ==> st.0.baseline == avg
            &&& st.1 matches PipelineActionView::Finish(o) ==> o.baseline_score == avg
        }),
    decreases es.len(),
{
    law_pipeline_whole_run(m, es);
    if es.len() == 1 {
        assert(es.drop_last().len() == 0);
        assert(pipeline_run(m, es.drop_last()).0 == m);
        assert(es.last() == es[0]);
    } else {
        let d = es.drop_last();
        lemma_pipeline_keeps_first_average(m, d);
        law_pipeline_whole_run(m, d);
        assert(d[0] == es[0]);
        let p = pipeline_run(m, d).0;
        assert(pipeline_expects(p, es.last()));
        if p.stage == PipelineStage::Bootstrap {
            let ev = es.last()->Evaluated_0;
            assert(p.boot.stage == BootstrapStage::Trial);
        }
    }
}

/// A finished pipeline reports as its baseline the average score of the
/// evaluation that answered its first action, which is the evaluation of
/// the unedited input configuration; it is not the bootstrap stage's best.
pub proof fn law_pipeline_baseline(m: PipelineModel, es: Seq<InstructionEvent>)
    requires
        pipeline_inv(m),
        m.stage == PipelineStage::Bootstrap,
        m.boot.stage == BootstrapStage::Baseline,
        pipeline_answers(m, es),
        es.len() > 0,
    ensures
        es[0] is Evaluated,
        pipeline_run(m, es).1 matches PipelineActionView::Finish(o) ==> o.baseline_score
            == es[0]->Evaluated_0.average_bits,
{
    lemma_pipeline_keeps_first_average(m, es);
}

} // verus!
