//! The built-in orchestration prompt templates and their names.
//!
//! Templates use two kinds of placeholders, `%%NAME%%` and `{{name}}`, that
//! the orchestrator fills in at run time; optimizing a template must keep them.
use vstd::prelude::*;
use crate::text::{owned, concat2, trim, lines, split_lines, trimmed, chars_of, substring};

verus! {

pub const ORCHESTRATOR_PREAMBLE_NAME: &'static str = "orchestrator_preamble";
pub const WORKER_PREAMBLE_NAME: &'static str = "worker_preamble";
pub const WORKER_TASK_PROMPT_NAME: &'static str = "worker_task_prompt";
pub const SYNTHESIS_PROMPT_NAME: &'static str = "synthesis_prompt";
pub const EVALUATION_PREAMBLE_NAME: &'static str = "evaluation_preamble";
pub const EVALUATION_PROMPT_NAME: &'static str = "evaluation_prompt";
pub const REFLECTION_PROMPT_NAME: &'static str = "reflection_prompt";
pub const PHASE_CONTINUATION_PROMPT_NAME: &'static str = "phase_continuation_prompt";
pub const SESSION_HISTORY_TEMPLATE_NAME: &'static str = "session_history_template";
pub const TODO_SYSTEM_PROMPT_NAME: &'static str = "todo_system_prompt";
pub const TODO_TOOL_PROMPT_NAME: &'static str = "todo_tool_prompt";

pub const ORCHESTRATOR_PREAMBLE: &'static str = "# Orchestration Coordinator\n\nYou coordinate a team of specialized workers to answer the user's request.\nBreak the request into focused tasks, assign each task to the worker best suited\nfor it, run independent tasks in parallel, and combine the results.\n\n## Available tools\n\n{{tools_section}}\n\n## Operator instructions\n\n{{orchestration_system_prompt}}\n";

pub const WORKER_PREAMBLE: &'static str = "# Worker\n\nYou are a specialized worker in a larger team. Complete only the task you are\ngiven, use your tools to gather real data, and report what you found concisely.\nNever invent values you did not observe.\n\n{{worker_system_prompt}}\n";

pub const WORKER_TASK_PROMPT: &'static str = "# Worker Task\n\nAssigned work:\n%%YOUR_TASK%%\n\nReport only what this work found, quoting observed values verbatim.\n";

pub const SYNTHESIS_PROMPT: &'static str = "# Synthesis\n\nOverall goal: %%GOAL%%\n\nOriginal request:\n%%QUERY%%\n\nWorker results:\n%%RESULTS%%\n\nCombine the worker results into one coherent answer to the original request.\nCite the evidence each conclusion rests on and state plainly what is unknown.\n";

pub const EVALUATION_PREAMBLE: &'static str = "# Evaluator\n\nYou judge whether an answer fully addresses a request. Be strict and specific.\n";

pub const EVALUATION_PROMPT: &'static str = "# Evaluation\n\nRequest:\n%%QUERY%%\n\nProposed answer:\n%%RESULT%%\n\nRate how completely and accurately the answer addresses the request and list\nanything that is missing.\n";

pub const REFLECTION_PROMPT: &'static str = "# Reflection\n\nThis is iteration %%ITERATION%% of the plan. Review what has been done so far,\nidentify gaps or mistakes, and decide what to do next.\n";

pub const PHASE_CONTINUATION_PROMPT: &'static str = "# Phase Continuation\n\nGoal: %%GOAL%%\n\nThe previous phase is complete. Using its results, plan and carry out the next\nphase toward the goal.\n";

pub const SESSION_HISTORY_TEMPLATE: &'static str = "# Session History\n\nEarlier turns in this conversation:\n%%TURN_ENTRIES%%\n";

pub const TODO_SYSTEM_PROMPT: &'static str = "# Task List\n\nKeep a task list for multi-step work: add a task for each step, mark tasks done\nas you finish them, and keep the list up to date.\n";

pub const TODO_TOOL_PROMPT: &'static str = "# Task List Tool\n\nUse this tool to create, update and complete tasks in your task list.\n";

/// The names of the built-in prompts, in their canonical order.
pub open spec fn default_prompt_names() -> Seq<Seq<char>> {
    seq![
        ORCHESTRATOR_PREAMBLE_NAME@,
        WORKER_PREAMBLE_NAME@,
        WORKER_TASK_PROMPT_NAME@,
        SYNTHESIS_PROMPT_NAME@,
        EVALUATION_PREAMBLE_NAME@,
        EVALUATION_PROMPT_NAME@,
        REFLECTION_PROMPT_NAME@,
        PHASE_CONTINUATION_PROMPT_NAME@,
        SESSION_HISTORY_TEMPLATE_NAME@,
        TODO_SYSTEM_PROMPT_NAME@,
        TODO_TOOL_PROMPT_NAME@,
    ]
}

/// The texts of the built-in prompts, in the order of their names.
pub open spec fn default_prompt_texts() -> Seq<Seq<char>> {
    seq![
        ORCHESTRATOR_PREAMBLE@,
        WORKER_PREAMBLE@,
        WORKER_TASK_PROMPT@,
        SYNTHESIS_PROMPT@,
        EVALUATION_PREAMBLE@,
        EVALUATION_PROMPT@,
        REFLECTION_PROMPT@,
        PHASE_CONTINUATION_PROMPT@,
        SESSION_HISTORY_TEMPLATE@,
        TODO_SYSTEM_PROMPT@,
        TODO_TOOL_PROMPT@,
    ]
}

/// The built-in prompt names are pairwise distinct.
pub proof fn lemma_default_names_distinct()
    ensures
        forall|i: int, j: int|
            0 <= i < 11 && 0 <= j < 11 && i != j ==> #[trigger] default_prompt_names()[i]
                != #[trigger] default_prompt_names()[j],
{
    reveal_strlit("orchestrator_preamble");
    reveal_strlit("worker_preamble");
    reveal_strlit("worker_task_prompt");
    reveal_strlit("synthesis_prompt");
    reveal_strlit("evaluation_preamble");
    reveal_strlit("evaluation_prompt");
    reveal_strlit("reflection_prompt");
    reveal_strlit("phase_continuation_prompt");
    reveal_strlit("session_history_template");
    reveal_strlit("todo_system_prompt");
    reveal_strlit("todo_tool_prompt");
    let n = default_prompt_names();
    assert forall|i: int, j: int| 0 <= i < 11 && 0 <= j < 11 && i != j implies #[trigger] n[i]
        != #[trigger] n[j] by {
        if n[i].len() == n[j].len() {
            assert(n[i][0] != n[j][0]);
        }
    }
}

/// The built-in prompts as `(name, text)` pairs, in canonical order.
pub fn embedded_defaults() -> (r: Vec<(String, String)>)
    ensures
        r@.len() == 11,
        forall|i: int|
            0 <= i < 11 ==> #[trigger] r@[i].0@ == default_prompt_names()[i] && r@[i].1@
                == default_prompt_texts()[i],
{
    let mut r: Vec<(String, String)> = Vec::new();
    r.push((owned(ORCHESTRATOR_PREAMBLE_NAME), owned(ORCHESTRATOR_PREAMBLE)));
    r.push((owned(WORKER_PREAMBLE_NAME), owned(WORKER_PREAMBLE)));
    r.push((owned(WORKER_TASK_PROMPT_NAME), owned(WORKER_TASK_PROMPT)));
    r.push((owned(SYNTHESIS_PROMPT_NAME), owned(SYNTHESIS_PROMPT)));
    r.push((owned(EVALUATION_PREAMBLE_NAME), owned(EVALUATION_PREAMBLE)));
    r.push((owned(EVALUATION_PROMPT_NAME), owned(EVALUATION_PROMPT)));
    r.push((owned(REFLECTION_PROMPT_NAME), owned(REFLECTION_PROMPT)));
    r.push((owned(PHASE_CONTINUATION_PROMPT_NAME), owned(PHASE_CONTINUATION_PROMPT)));
    r.push((owned(SESSION_HISTORY_TEMPLATE_NAME), owned(SESSION_HISTORY_TEMPLATE)));
    r.push((owned(TODO_SYSTEM_PROMPT_NAME), owned(TODO_SYSTEM_PROMPT)));
    r.push((owned(TODO_TOOL_PROMPT_NAME), owned(TODO_TOOL_PROMPT)));
    r
}

/// `s` without its leading `#` marks.
pub open spec fn skip_hashes(s: Seq<char>) -> Seq<char>
    decreases s.len(),
{
    if s.len() > 0 && s[0] == '#' {
        skip_hashes(s.drop_first())
    } else {
        s
    }
}

/// The text of a Markdown heading line: the trimmed line without its
/// leading `#` marks, trimmed again; `None` when the line is no heading.
pub open spec fn heading_text(line: Seq<char>) -> Option<Seq<char>> {
    let t = trim(line);
    if t.len() > 0 && t[0] == '#' {
        Some(trim(skip_hashes(t)))
    } else {
        None
    }
}

/// The text of the first heading among `ls` that has any.
pub open spec fn first_heading(ls: Seq<Seq<char>>) -> Option<Seq<char>>
    decreases ls.len(),
{
    if ls.len() == 0 {
        None
    } else {
        match heading_text(ls[0]) {
            Some(h) if h.len() > 0 => Some(h),
            _ => first_heading(ls.drop_first()),
        }
    }
}

/// A prompt's description: its first Markdown heading, else its name.
pub open spec fn spec_describe_prompt(name: Seq<char>, content: Seq<char>) -> Seq<char> {
    match first_heading(lines(content)) {
        Some(h) => h,
        None => name,
    }
}

/// The position of the first character of `v[from..]` that is not `#`.
fn skip_hash_marks(v: &Vec<char>, from: usize) -> (r: usize)
    requires
        from <= v@.len(),
    ensures
        from <= r <= v@.len(),
        skip_hashes(v@.skip(from as int)) == v@.skip(r as int),
    decreases v@.len() - from,
{
    if from < v.len() && v[from] == '#' {
        assert(v@.skip(from as int).drop_first() =~= v@.skip(from + 1));
        skip_hash_marks(v, from + 1)
    } else {
        proof {
            if from < v@.len() {
                assert(v@.skip(from as int)[0] == v@[from as int]);
            }
        }
        from
    }
}

/// Describes a prompt by its first Markdown heading, or by its name when it
/// has none.
pub fn describe_prompt(name: &str, content: &str) -> (r: String)
    ensures
        r@ == spec_describe_prompt(name@, content@),
{
    let ls = split_lines(content);
    let ghost all = ls@.map_values(|x: String| x@);
    let mut i: usize = 0;
    assert(all.skip(0) =~= all);
    while i < ls.len()
        invariant
            i <= ls@.len(),
            all == ls@.map_values(|x: String| x@),
            all == lines(content@),
            first_heading(all) == first_heading(all.skip(i as int)),
        decreases ls.len() - i,
    {
        let t = trimmed(ls[i].as_str());
        let tv = chars_of(t.as_str());
        assert(all.skip(i as int)[0] == ls@[i as int]@);
        assert(all.skip(i as int).drop_first() =~= all.skip(i + 1));
        if tv.len() > 0 && tv[0] == '#' {
            let k = skip_hash_marks(&tv, 0);
            assert(tv@.skip(0) =~= tv@);
            let rest = substring(t.as_str(), k, tv.len());
            assert(rest@ =~= tv@.skip(k as int));
            let h = trimmed(rest.as_str());
            if h.as_str().unicode_len() > 0 {
                return h;
            }
        }
        i = i + 1;
    }
    assert(all.skip(i as int) =~= Seq::<Seq<char>>::empty());
    owned(name)
}

} // verus!
