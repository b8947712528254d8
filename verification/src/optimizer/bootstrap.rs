//! BootstrapFewShot's prompt rewriting: passing examples from an evaluation
//! become few-shot demonstrations appended to the target prompt.
use vstd::prelude::*;
use crate::text::{trim_end, is_prefix, is_ws, has_substring, occurs_at, trimmed_end, concat3, owned};
use crate::config::schema::AuraConfig;
use crate::optimizer::field::{OptimizableField, spec_field_path};
use crate::optimizer::instruction::{positions, positions_of, lemma_positions_bound, first_where,
    lemma_first_positions};
use crate::optimizer::run::{Edit, Evaluation, ScenarioOutcome, ScoredCandidate, CandidateView,
    OptimizationLogEntry, LogView, OptimizationResult, ResultView, Rationale, edits_view,
    cands_view, logs_view, strings_view, edited_value, clone_edits, read_edited, result_keeps_best};

verus! {

/// The heading of the few-shot block.
pub const EXAMPLES_HEADING: &'static str = "## Examples";

/// The demonstrations for `(input, output)` pairs, each as a user turn and an
/// assistant turn followed by a blank line.
pub open spec fn example_lines(examples: Seq<(String, String)>) -> Seq<char>
    decreases examples.len(),
{
    if examples.len() == 0 {
        seq![]
    } else {
        example_lines(examples.drop_last()) + "User: "@ + examples.last().0@ + "\nAssistant: "@
            + examples.last().1@ + "\n\n"@
    }
}

/// The few-shot block for `examples`: the heading, then the demonstrations.
pub open spec fn spec_few_shot_block(examples: Seq<(String, String)>) -> Seq<char> {
    trim_end(EXAMPLES_HEADING@ + "\n\n"@ + example_lines(examples))
}

/// `original` without trailing whitespace, a blank line, then `block`.
pub open spec fn spec_few_shot_prompt(original: Seq<char>, block: Seq<char>) -> Seq<char> {
    trim_end(original) + "\n\n"@ + block
}

/// Builds the few-shot block from `(input, output)` pairs, in order.
pub fn build_few_shot_block(examples: &Vec<(String, String)>) -> (r: String)
    ensures
        r@ == spec_few_shot_block(examples@),
{
    let mut block = String::from_str(EXAMPLES_HEADING);
    block.append("\n\n");
    let mut i: usize = 0;
    while i < examples.len()
        invariant
            i <= examples@.len(),
            block@ == EXAMPLES_HEADING@ + "\n\n"@ + example_lines(examples@.take(i as int)),
        decreases examples.len() - i,
    {
        let ghost before = block@;
        block.append("User: ");
        block.append(examples[i].0.as_str());
        block.append("\nAssistant: ");
        block.append(examples[i].1.as_str());
        block.append("\n\n");
        assert(examples@.take(i + 1).drop_last() =~= examples@.take(i as int));
        assert(examples@.take(i + 1).last() == examples@[i as int]);
        assert(block@ =~= EXAMPLES_HEADING@ + "\n\n"@ + example_lines(examples@.take(i + 1)));
        i = i + 1;
    }
    assert(examples@.take(i as int) =~= examples@);
    trimmed_end(block.as_str())
}

/// The prompt `original` with the few-shot `block` appended.
pub fn few_shot_prompt(original: &str, block: &str) -> (r: String)
    ensures
        r@ == spec_few_shot_prompt(original@, block@),
{
    let base = trimmed_end(original);
    concat3(base.as_str(), "\n\n", block)
}

/// Trimming trailing whitespace keeps a prefix that does not end in whitespace.
pub proof fn lemma_trim_end_keeps_prefix(p: Seq<char>, s: Seq<char>)
    requires
        is_prefix(p, s),
        p.len() > 0,
        !is_ws(p.last()),
    ensures
        is_prefix(p, trim_end(s)),
    decreases s.len(),
{
    if s.len() > 0 && is_ws(s.last()) {
        if s.len() == p.len() {
            assert(s.subrange(0, p.len() as int)[p.len() - 1] == s.last());
        }
        assert(s.drop_last().subrange(0, p.len() as int) =~= s.subrange(0, p.len() as int));
        lemma_trim_end_keeps_prefix(p, s.drop_last());
    }
}

/// Law: after few-shot injection the prompt starts with the original prompt
/// (without its trailing whitespace) and holds the examples heading.
pub proof fn law_few_shot_prompt_shape(original: Seq<char>, examples: Seq<(String, String)>)
    ensures
        is_prefix(trim_end(original), spec_few_shot_prompt(original, spec_few_shot_block(examples))),
        has_substring(
            spec_few_shot_prompt(original, spec_few_shot_block(examples)),
            EXAMPLES_HEADING@,
        ),
{
    reveal_strlit("## Examples");
    let raw = EXAMPLES_HEADING@ + "\n\n"@ + example_lines(examples);
    let h = EXAMPLES_HEADING@;
    assert(raw.subrange(0, h.len() as int) =~= h);
    lemma_trim_end_keeps_prefix(h, raw);
    let block = spec_few_shot_block(examples);
    let head = trim_end(original) + "\n\n"@;
    let full = spec_few_shot_prompt(original, block);
    assert(full =~= head + block);
    assert(full.subrange(0, trim_end(original).len() as int) =~= trim_end(original));
    assert(full.subrange(head.len() as int, (head.len() + h.len()) as int) =~= block.subrange(
        0,
        h.len() as int,
    ));
    assert(occurs_at(full, h, head.len() as int));
}

/// The note on the baseline when no scenario passed.
pub const NO_PASSING_NOTE: &'static str = "No passing examples found; returning baseline config.";

/// The note on the baseline candidate.
pub const BASELINE_CONFIG_NOTE: &'static str = "Baseline config";

/// The note on the configuration with the injected examples.
pub const INJECTED_NOTE: &'static str = "After BootstrapFewShot injection";

/// The optimizer's name in the log.
pub const BOOTSTRAP_NAME: &'static str = "BootstrapFewShot";

/// Injects passing evaluation examples into a prompt as few-shot
/// demonstrations.  A scenario passes when its score is at least the
/// threshold.  The threshold is held as the bit pattern of an `f64`, like
/// the scores, and compared as `score_reaches` says.
#[derive(Debug)]
pub struct BootstrapFewShot {
    pub pass_threshold_bits: u64,
    pub max_examples: usize,
    pub target_field: OptimizableField,
}

/// The bit pattern of the `f64` value 0.7, the default pass threshold.
pub const DEFAULT_PASS_THRESHOLD_BITS: u64 = 0x3FE6_6666_6666_6666u64;

impl BootstrapFewShot {
    /// Threshold 0.7, at most five examples, into the agent's system prompt.
    pub fn new() -> (r: Self)
        ensures
            r.pass_threshold_bits == DEFAULT_PASS_THRESHOLD_BITS,
            r.max_examples == 5,
            r.target_field == OptimizableField::AgentSystemPrompt,
    {
        BootstrapFewShot {
            pass_threshold_bits: DEFAULT_PASS_THRESHOLD_BITS,
            max_examples: 5,
            target_field: OptimizableField::AgentSystemPrompt,
        }
    }

    /// Uses the pass threshold whose bit pattern is `bits`.
    pub fn with_pass_threshold_bits(self, bits: u64) -> (r: Self)
        ensures
            r.pass_threshold_bits == bits,
            r.max_examples == self.max_examples,
            r.target_field == self.target_field,
    {
        BootstrapFewShot { pass_threshold_bits: bits, ..self }
    }

    /// Injects at most `n` examples.
    pub fn with_max_examples(self, n: usize) -> (r: Self)
        ensures
            r.pass_threshold_bits == self.pass_threshold_bits,
            r.max_examples == n,
            r.target_field == self.target_field,
    {
        BootstrapFewShot { max_examples: n, ..self }
    }

    /// Injects the examples into `field`.
    pub fn with_target_field(self, field: OptimizableField) -> (r: Self)
        ensures
            r.pass_threshold_bits == self.pass_threshold_bits,
            r.max_examples == self.max_examples,
            r.target_field == field,
    {
        BootstrapFewShot { target_field: field, ..self }
    }
}

impl Default for BootstrapFewShot {
    fn default() -> (r: Self)
        ensures
            r.pass_threshold_bits == DEFAULT_PASS_THRESHOLD_BITS,
            r.max_examples == 5,
            r.target_field == OptimizableField::AgentSystemPrompt,
    {
        BootstrapFewShot::new()
    }
}

/// The bit pattern of an `f64` whose sign bit is set.
pub const SIGN_BIT: u64 = 0x8000_0000_0000_0000;

/// The bit pattern of `f64::INFINITY`: a magnitude above it is a NaN.
pub const INFINITY_BITS: u64 = 0x7FF0_0000_0000_0000;

/// Whether a score reaches a threshold, both given as `f64` bit patterns,
/// as `score >= threshold` compares them.  Scores are non-negative and not
/// NaN; the threshold may be anything: a negative one (or -0.0) is reached
/// by every score, a NaN by none, and a non-negative one by the scores whose
/// bits are at least its bits, since those bits order such numbers.
pub open spec fn score_reaches(score: u64, threshold: u64) -> bool {
    if threshold >= SIGN_BIT {
        threshold - SIGN_BIT <= INFINITY_BITS
    } else {
        score >= threshold
    }
}

/// Whether each outcome's score reaches the threshold.
pub open spec fn reaches(os: Seq<ScenarioOutcome>, threshold: u64) -> Seq<bool> {
    os.map_values(|o: ScenarioOutcome| score_reaches(o.score_bits, threshold))
}

/// Whether the score `score` reaches the threshold `threshold` (bit patterns).
pub fn reaches_threshold(score: u64, threshold: u64) -> (r: bool)
    ensures
        r == score_reaches(score, threshold),
{
    if threshold >= SIGN_BIT {
        threshold - SIGN_BIT <= INFINITY_BITS
    } else {
        score >= threshold
    }
}

/// The positions of the passing examples: the first `max` scenarios whose
/// score reaches the threshold.
pub open spec fn passing_positions(os: Seq<ScenarioOutcome>, threshold: u64, max: nat) -> Seq<int> {
    let all = positions(reaches(os, threshold), true);
    all.take(if all.len() < max { all.len() as int } else { max as int })
}

/// The `(input, output)` pairs of the outcomes at `idx`.
pub open spec fn example_pairs(os: Seq<ScenarioOutcome>, idx: Seq<int>) -> Seq<(String, String)> {
    idx.map_values(|i: int| (os[i].input, os[i].output))
}

/// Where a bootstrap run stands.
#[derive(Debug, Clone, Copy, PartialEq, Eq, Structural)]
pub enum BootstrapStage {
    /// Waiting for the evaluation of the input configuration.
    Baseline,
    /// Waiting for the evaluation of the configuration with the examples.
    Trial,
    /// Done.
    Finished,
}

/// What the caller must do next.
#[derive(Debug)]
pub enum BootstrapAction {
    /// Evaluate the configuration these edits make of the input configuration.
    Evaluate(Vec<Edit>),
    /// The run is over.
    Finish(OptimizationResult),
}

/// A bootstrap action, as plain values.
pub enum BootstrapActionView {
    Evaluate(Seq<(OptimizableField, Seq<char>)>),
    Finish(ResultView),
}

impl View for BootstrapAction {
    type V = BootstrapActionView;

    open spec fn view(&self) -> BootstrapActionView {
        match self {
            BootstrapAction::Evaluate(e) => BootstrapActionView::Evaluate(edits_view(e@)),
            BootstrapAction::Finish(r) => BootstrapActionView::Finish(r@),
        }
    }
}

/// The state of a bootstrap run, as plain values.
#[verifier::ext_equal]
pub struct BootstrapModel {
    pub base: AuraConfig,
    pub start: Seq<(OptimizableField, Seq<char>)>,
    pub target: OptimizableField,
    pub threshold: u64,
    pub max_examples: nat,
    pub stage: BootstrapStage,
    pub baseline: u64,
    pub baseline_run: nat,
    /// The target's text in the input configuration.
    pub original: Seq<char>,
    /// The target's text with the examples.
    pub prompt: Seq<char>,
    /// How many examples were injected.
    pub examples: nat,
}

/// The state a bootstrap run starts in.
pub open spec fn bootstrap_initial(
    opt: BootstrapFewShot,
    base: AuraConfig,
    start: Seq<(OptimizableField, Seq<char>)>,
) -> BootstrapModel {
    BootstrapModel {
        base,
        start,
        target: opt.target_field,
        threshold: opt.pass_threshold_bits,
        max_examples: opt.max_examples as nat,
        stage: BootstrapStage::Baseline,
        baseline: 0,
        baseline_run: 0,
        original: seq![],
        prompt: seq![],
        examples: 0,
    }
}

/// The edits that make the configuration with the examples.
pub open spec fn trial_edits(m: BootstrapModel) -> Seq<(OptimizableField, Seq<char>)> {
    m.start.push((m.target, m.prompt))
}

/// One step of a bootstrap run: the state after the evaluation `ev`, and
/// the next action.
pub open spec fn bootstrap_step(m: BootstrapModel, ev: Evaluation) -> (BootstrapModel, BootstrapActionView) {
    let avg = ev.average_bits;
    match m.stage {
        BootstrapStage::Baseline => {
            let idx = passing_positions(ev.outcomes@, m.threshold, m.max_examples);
            if idx.len() == 0 {
                (
                    BootstrapModel { stage: BootstrapStage::Finished, baseline: avg, baseline_run: ev.run as nat, ..m },
                    BootstrapActionView::Finish(
                        ResultView {
                            best_edits: m.start,
                            best_score: avg,
                            candidates: seq![
                                CandidateView {
                                    edits: m.start,
                                    score: avg,
                                    run: ev.run as nat,
                                    notes: seq![NO_PASSING_NOTE@],
                                },
                            ],
                            baseline_score: avg,
                            log: seq![],
                        },
                    ),
                )
            } else {
                let original = match edited_value(m.base, m.start, m.target) {
                    Some(v) => v,
                    None => seq![],
                };
                let prompt = spec_few_shot_prompt(
                    original,
                    spec_few_shot_block(example_pairs(ev.outcomes@, idx)),
                );
                let m2 = BootstrapModel {
                    stage: BootstrapStage::Trial,
                    baseline: avg,
                    baseline_run: ev.run as nat,
                    original,
                    prompt,
                    examples: idx.len(),
                    ..m
                };
                (m2, BootstrapActionView::Evaluate(trial_edits(m2)))
            }
        },
        _ => {
            let improved = avg >= m.baseline;
            (
                BootstrapModel { stage: BootstrapStage::Finished, ..m },
                BootstrapActionView::Finish(
                    ResultView {
                        best_edits: if improved {
                            trial_edits(m)
                        } else {
                            m.start
                        },
                        best_score: if improved {
                            avg
                        } else {
                            m.baseline
                        },
                        candidates: seq![
                            CandidateView {
                                edits: m.start,
                                score: m.baseline,
                                run: m.baseline_run,
                                notes: seq![BASELINE_CONFIG_NOTE@],
                            },
                            CandidateView {
                                edits: trial_edits(m),
                                score: avg,
                                run: ev.run as nat,
                                notes: seq![INJECTED_NOTE@],
                            },
                        ],
                        baseline_score: m.baseline,
                        log: seq![
                            LogView {
                                optimizer: BOOTSTRAP_NAME@,
                                field: spec_field_path(m.target),
                                before: m.original,
                                after: m.prompt,
                                score_before: m.baseline,
                                score_after: avg,
                                rationale: Rationale::FewShot { examples: m.examples as usize },
                                alternatives: seq![],
                            },
                        ],
                    },
                ),
            )
        },
    }
}

/// A bootstrap run in progress.
pub struct BootstrapRun<'a> {
    base: &'a AuraConfig,
    start: Vec<Edit>,
    target: OptimizableField,
    threshold: u64,
    max_examples: usize,
    stage: BootstrapStage,
    baseline: u64,
    baseline_run: usize,
    original: String,
    prompt: String,
    examples: usize,
}

impl<'a> View for BootstrapRun<'a> {
    type V = BootstrapModel;

    closed spec fn view(&self) -> BootstrapModel {
        BootstrapModel {
            base: *self.base,
            start: edits_view(self.start@),
            target: self.target,
            threshold: self.threshold,
            max_examples: self.max_examples as nat,
            stage: self.stage,
            baseline: self.baseline,
            baseline_run: self.baseline_run as nat,
            original: self.original@,
            prompt: self.prompt@,
            examples: self.examples as nat,
        }
    }
}

/// Whether each outcome's score reaches `threshold`.
fn reaching(os: &Vec<ScenarioOutcome>, threshold: u64) -> (r: Vec<bool>)
    ensures
        r@ == reaches(os@, threshold),
{
    let mut r: Vec<bool> = Vec::new();
    let mut i: usize = 0;
    while i < os.len()
        invariant
            i <= os@.len(),
            r@ == reaches(os@.take(i as int), threshold),
        decreases os.len() - i,
    {
        r.push(reaches_threshold(os[i].score_bits, threshold));
        assert(reaches(os@.take(i + 1), threshold) =~= r@);
        i = i + 1;
    }
    assert(os@.take(i as int) =~= os@);
    r
}

/// The `(input, output)` pairs of the outcomes at `idx`.
fn pairs_at(os: &Vec<ScenarioOutcome>, idx: &Vec<usize>) -> (r: Vec<(String, String)>)
    requires
        forall|j: int| 0 <= j < idx@.len() ==> idx@[j] < os@.len(),
    ensures
        r@ == example_pairs(os@, idx@.map_values(|i: usize| i as int)),
{
    let ghost iv = idx@.map_values(|i: usize| i as int);
    let mut r: Vec<(String, String)> = Vec::new();
    let mut k: usize = 0;
    while k < idx.len()
        invariant
            k <= idx@.len(),
            iv == idx@.map_values(|i: usize| i as int),
            forall|j: int| 0 <= j < idx@.len() ==> idx@[j] < os@.len(),
            r@ == example_pairs(os@, iv.take(k as int)),
        decreases idx.len() - k,
    {
        let o = &os[idx[k]];
        r.push((o.input.clone(), o.output.clone()));
        assert(example_pairs(os@, iv.take(k + 1)) =~= r@);
        k = k + 1;
    }
    assert(iv.take(k as int) =~= iv);
    r
}

impl<'a> BootstrapRun<'a> {
    /// Starts a run of `opt` from the configuration that `start` makes of
    /// `base`; the first action evaluates that configuration.
    pub fn start(opt: BootstrapFewShot, base: &'a AuraConfig, start: Vec<Edit>) -> (r: (
        Self,
        BootstrapAction,
    ))
        ensures
            r.0@ == bootstrap_initial(opt, *base, edits_view(start@)),
            r.1@ == BootstrapActionView::Evaluate(edits_view(start@)),
    {
        let first = clone_edits(&start);
        let run = BootstrapRun {
            base,
            start,
            target: opt.target_field,
            threshold: opt.pass_threshold_bits,
            max_examples: opt.max_examples,
            stage: BootstrapStage::Baseline,
            baseline: 0,
            baseline_run: 0,
            original: String::new(),
            prompt: String::new(),
            examples: 0,
        };
        assert(run@ =~= bootstrap_initial(opt, *base, edits_view(first@)));
        (run, BootstrapAction::Evaluate(first))
    }

    /// Where the run stands.
    pub fn stage(&self) -> (r: BootstrapStage)
        ensures
            r == self@.stage,
    {
        self.stage
    }

    /// Takes the evaluation `ev` that the last action asked for and names
    /// the next action.
    pub fn step(self, ev: Evaluation) -> (r: (Self, BootstrapAction))
        requires
            self@.stage != BootstrapStage::Finished,
        ensures
            r.0@ == bootstrap_step(self@, ev).0,
            r.1@ == bootstrap_step(self@, ev).1,
    {
        let ghost m = self@;
        let avg = ev.average_bits;
        let BootstrapRun {
            base,
            start,
            target,
            threshold,
            max_examples,
            stage,
            baseline,
            baseline_run,
            original,
            prompt,
            examples,
        } = self;
        if stage == BootstrapStage::Baseline {
            let flags = reaching(&ev.outcomes, threshold);
            let idx = positions_of(&flags, true, max_examples);
            let ghost iv = idx@.map_values(|i: usize| i as int);
            assert(iv == passing_positions(ev.outcomes@, threshold, max_examples as nat));
            if idx.len() == 0 {
                let mut notes: Vec<String> = Vec::new();
                notes.push(owned(NO_PASSING_NOTE));
                let mut candidates: Vec<ScoredCandidate> = Vec::new();
                candidates.push(
                    ScoredCandidate { edits: clone_edits(&start), score_bits: avg, run: ev.run, notes },
                );
                let result = OptimizationResult {
                    best_edits: clone_edits(&start),
                    best_score_bits: avg,
                    candidates,
                    baseline_score_bits: avg,
                    optimization_log: Vec::new(),
                };
                let run = BootstrapRun {
                    base,
                    start,
                    target,
                    threshold,
                    max_examples,
                    stage: BootstrapStage::Finished,
                    baseline: avg,
                    baseline_run: ev.run,
                    original,
                    prompt,
                    examples,
                };
                let ghost expected = bootstrap_step(m, ev).1;
                assert(cands_view(result.candidates@)[0] =~= CandidateView {
                    edits: m.start,
                    score: avg,
                    run: ev.run as nat,
                    notes: seq![NO_PASSING_NOTE@],
                });
                assert(result@ =~= match expected {
                    BootstrapActionView::Finish(x) => x,
                    _ => result@,
                });
                (run, BootstrapAction::Finish(result))
            } else {
                proof {
                    lemma_positions_bound(reaches(ev.outcomes@, threshold), true);
                    let all = positions(reaches(ev.outcomes@, threshold), true);
                    assert forall|j: int| 0 <= j < idx@.len() implies idx@[j] < ev.outcomes@.len() by {
                        assert(iv[j] == idx@[j] as int);
                        assert(iv[j] == all[j]);
                    }
                }
                let pairs = pairs_at(&ev.outcomes, &idx);
                let block = build_few_shot_block(&pairs);
                let original_now = match read_edited(base, &start, &target) {
                    Some(v) => v,
                    None => String::new(),
                };
                let prompt_now = few_shot_prompt(original_now.as_str(), block.as_str());
                let mut edits = clone_edits(&start);
                edits.push(Edit { field: target.clone(), value: prompt_now.clone() });
                let run = BootstrapRun {
                    base,
                    start,
                    target,
                    threshold,
                    max_examples,
                    stage: BootstrapStage::Trial,
                    baseline: avg,
                    baseline_run: ev.run,
                    original: original_now,
                    prompt: prompt_now,
                    examples: idx.len(),
                };
                proof {
                    reveal_strlit("");
                }
                assert(run@ =~= bootstrap_step(m, ev).0);
                assert(edits_view(edits@) =~= trial_edits(run@));
                (run, BootstrapAction::Evaluate(edits))
            }
        } else {
            let improved = avg >= baseline;
            let mut trial = clone_edits(&start);
            trial.push(Edit { field: target.clone(), value: prompt.clone() });
            let best_edits = if improved {
                clone_edits(&trial)
            } else {
                clone_edits(&start)
            };
            let mut notes0: Vec<String> = Vec::new();
            notes0.push(owned(BASELINE_CONFIG_NOTE));
            let mut notes1: Vec<String> = Vec::new();
            notes1.push(owned(INJECTED_NOTE));
            assert(strings_view(notes0@) =~= seq![BASELINE_CONFIG_NOTE@]);
            assert(strings_view(notes1@) =~= seq![INJECTED_NOTE@]);
            let mut candidates: Vec<ScoredCandidate> = Vec::new();
            candidates.push(
                ScoredCandidate {
                    edits: clone_edits(&start),
                    score_bits: baseline,
                    run: baseline_run,
                    notes: notes0,
                },
            );
            candidates.push(ScoredCandidate { edits: trial, score_bits: avg, run: ev.run, notes: notes1 });
            let mut log: Vec<OptimizationLogEntry> = Vec::new();
            log.push(
                OptimizationLogEntry {
                    optimizer: owned(BOOTSTRAP_NAME),
                    field: target.field_path(),
                    before: original.clone(),
                    after: prompt.clone(),
                    score_before_bits: baseline,
                    score_after_bits: avg,
                    rationale: Rationale::FewShot { examples },
                    alternatives: Vec::new(),
                },
            );
            let result = OptimizationResult {
                best_edits,
                best_score_bits: if improved {
                    avg
                } else {
                    baseline
                },
                candidates,
                baseline_score_bits: baseline,
                optimization_log: log,
            };
            let run = BootstrapRun {
                base,
                start,
                target,
                threshold,
                max_examples,
                stage: BootstrapStage::Finished,
                baseline,
                baseline_run,
                original,
                prompt,
                examples,
            };
            let ghost expected = bootstrap_step(m, ev).1;
            let ghost rv = match expected {
                BootstrapActionView::Finish(x) => x,
                _ => result@,
            };
            assert(cands_view(result.candidates@)[0] =~= rv.candidates[0]);
            assert(cands_view(result.candidates@)[1] =~= rv.candidates[1]);
            assert(cands_view(result.candidates@) =~= rv.candidates);
            assert(logs_view(result.optimization_log@)[0] =~= rv.log[0]);
            assert(logs_view(result.optimization_log@) =~= rv.log);
            assert(result@ =~= rv);
            assert(run@ =~= bootstrap_step(m, ev).0);
            (run, BootstrapAction::Finish(result))
        }
    }
}

/// What holds of every state a bootstrap run reaches: while the trial
/// configuration is evaluated, its prompt holds the examples heading.
pub open spec fn bootstrap_inv(m: BootstrapModel) -> bool {
    m.stage == BootstrapStage::Trial ==> has_substring(m.prompt, EXAMPLES_HEADING@)
}

/// Every state a bootstrap run reaches satisfies `bootstrap_inv`, and a
/// step that finishes hands over a result that never scores below the
/// baseline, whose best edits made a candidate with the best score, and
/// whose logged prompt (if any) holds the examples heading.
pub proof fn law_bootstrap_run(m: BootstrapModel, ev: Evaluation)
    requires
        bootstrap_inv(m),
        m.stage != BootstrapStage::Finished,
    ensures
        bootstrap_inv(bootstrap_step(m, ev).0),
        bootstrap_step(m, ev).1 matches BootstrapActionView::Finish(r) ==> (result_keeps_best(r)
            && forall|i: int|
            0 <= i < r.log.len() ==> has_substring(#[trigger] r.log[i].after, EXAMPLES_HEADING@)),
{
    let avg = ev.average_bits;
    if m.stage == BootstrapStage::Baseline {
        let idx = passing_positions(ev.outcomes@, m.threshold, m.max_examples);
        if idx.len() == 0 {
            let r = match bootstrap_step(m, ev).1 {
                BootstrapActionView::Finish(x) => x,
                _ => arbitrary(),
            };
            assert(r.candidates[0].edits == r.best_edits);
        } else {
            let original = match edited_value(m.base, m.start, m.target) {
                Some(v) => v,
                None => seq![],
            };
            law_few_shot_prompt_shape(original, example_pairs(ev.outcomes@, idx));
        }
    } else {
        let r = match bootstrap_step(m, ev).1 {
            BootstrapActionView::Finish(x) => x,
            _ => arbitrary(),
        };
        if avg >= m.baseline {
            assert(r.candidates[1].edits == r.best_edits);
        } else {
            assert(r.candidates[0].edits == r.best_edits);
        }
        assert(r.log[0].after == m.prompt);
    }
}

/// A bootstrap run starts in a state that satisfies `bootstrap_inv`.
pub proof fn law_bootstrap_start(
    opt: BootstrapFewShot,
    base: AuraConfig,
    start: Seq<(OptimizableField, Seq<char>)>,
)
    ensures
        bootstrap_inv(bootstrap_initial(opt, base, start)),
{
}

/// The state after answering each of the evaluations `evs` in turn from
/// `m`, and the last action (asking for no edits when none was given).
pub open spec fn bootstrap_run(m: BootstrapModel, evs: Seq<Evaluation>) -> (
    BootstrapModel,
    BootstrapActionView,
)
    decreases evs.len(),
{
    if evs.len() == 0 {
        (m, BootstrapActionView::Evaluate(seq![]))
    } else {
        bootstrap_step(bootstrap_run(m, evs.drop_last()).0, evs.last())
    }
}

/// No evaluation of `evs` comes after the run finished.
pub open spec fn bootstrap_answers(m: BootstrapModel, evs: Seq<Evaluation>) -> bool
    decreases evs.len(),
{
    evs.len() == 0 || (bootstrap_answers(m, evs.drop_last()) && bootstrap_run(
        m,
        evs.drop_last(),
    ).0.stage != BootstrapStage::Finished)
}

/// Over a whole run of evaluations from a state that satisfies
/// `bootstrap_inv` (such as the starting state), every state reached
/// satisfies it, and a finishing last action hands over a result that never
/// scores below the baseline, whose best edits made a candidate with the
/// best score, and whose logged prompt holds the examples heading.
pub proof fn law_bootstrap_whole_run(m: BootstrapModel, evs: Seq<Evaluation>)
    requires
        bootstrap_inv(m),
        bootstrap_answers(m, evs),
    ensures
        bootstrap_inv(bootstrap_run(m, evs).0),
        evs.len() > 0 ==> (bootstrap_run(m, evs).1 matches BootstrapActionView::Finish(r) ==> (
        result_keeps_best(r) && forall|i: int|
            0 <= i < r.log.len() ==> has_substring(#[trigger] r.log[i].after, EXAMPLES_HEADING@))),
    decreases evs.len(),
{
    if evs.len() > 0 {
        law_bootstrap_whole_run(m, evs.drop_last());
        law_bootstrap_run(bootstrap_run(m, evs.drop_last()).0, evs.last());
    }
}

/// The answer to the baseline evaluation.  The examples are exactly the
/// first `max_examples` (or fewer) scenarios, in dataset order, whose score
/// reaches the threshold: when there are any, the run asks to evaluate the
/// input configuration with the target set to the original text, a blank
/// line and the block of those `(input, output)` pairs, and records how many
/// there are (never more than `max_examples`); when there are none (or
/// `max_examples` is zero) it finishes with the input configuration, whose
/// score is the evaluation's average, as its best.
pub proof fn law_bootstrap_examples(m: BootstrapModel, ev: Evaluation)
    requires
        m.stage == BootstrapStage::Baseline,
    ensures
        ({
            let os = ev.outcomes@;
            let st = bootstrap_step(m, ev);
            &&& st.0.baseline == ev.average_bits
            &&& st.1 matches BootstrapActionView::Evaluate(edits) ==> exists|idx: Seq<int>|
                first_where(
                    os.len() as int,
                    |j: int| score_reaches(os[j].score_bits, m.threshold),
                    m.max_examples,
                    idx,
                ) && idx.len() > 0 && st.0.examples == idx.len() && st.0.examples <= m.max_examples
                    && st.0.original == (match edited_value(m.base, m.start, m.target) {
                    Some(v) => v,
                    None => seq![],
                }) && st.0.prompt == spec_few_shot_prompt(
                    st.0.original,
                    spec_few_shot_block(#[trigger] example_pairs(os, idx)),
                ) && edits == m.start.push((m.target, st.0.prompt))
            &&& st.1 matches BootstrapActionView::Finish(r) ==> (forall|j: int|
                0 <= j < os.len() && score_reaches(#[trigger] os[j].score_bits, m.threshold)
                    ==> m.max_examples == 0) && r.best_edits == m.start && r.best_score
                == ev.average_bits && r.baseline_score == ev.average_bits && r.log.len() == 0
        }),
{
    let os = ev.outcomes@;
    let flags = reaches(os, m.threshold);
    let p = |j: int| score_reaches(os[j].score_bits, m.threshold);
    assert forall|j: int| 0 <= j < flags.len() implies (#[trigger] p(j) <==> flags[j] == true) by {}
    lemma_first_positions(flags, true, m.max_examples, p);
    let idx = passing_positions(os, m.threshold, m.max_examples);
    assert(first_where(os.len() as int, p, m.max_examples, idx));
    if idx.len() == 0 {
        assert forall|j: int|
            0 <= j < os.len() && score_reaches(#[trigger] os[j].score_bits, m.threshold) implies m.max_examples
            == 0 by {
            assert(p(j));
        }
    }
}

} // verus!
