//! The instruction optimizer's own text handling: the request it sends to
//! the language model, reading the candidate prompts it gets back, and
//! rejecting candidates that lose template placeholders.
use vstd::prelude::*;
pub use crate::template::templates_preserved;
use crate::template::preserves_templates;
use crate::optimizer::field::{OptimizableField, spec_field_path, spec_description};
use crate::optimizer::fences::{strip_code_fences, spec_strip_code_fences};
use crate::json::{json_string_array, parse_string_array};
use crate::error::Error;
use crate::text::{decimal, decimal_string, concat2};

verus! {

/// The instruction added to the request for a template prompt.
pub const TEMPLATE_INSTRUCTION: &'static str = "\n\nCRITICAL: This is a template prompt. You MUST preserve ALL template variables (%%VARIABLE_NAME%% and {{variable_name}} placeholders) exactly as they appear. Do not rename, remove, or add template variables. Only improve the instructional text, structure, and clarity around the existing variables.";

/// The system message sent with every optimization request.
pub const OPTIMIZER_SYSTEM_MESSAGE: &'static str = "You are an expert prompt engineer. Return only valid JSON arrays. When optimizing template prompts, preserve all template variables (%%VAR%% and {{var}} placeholders) exactly as they appear.";

pub const PART_OPENING: &'static str = "You are a prompt engineer. Analyze these agent failures and propose ";
pub const PART_FIELD: &'static str = " improved versions of the prompt field `";
pub const PART_DESCRIPTION: &'static str = "`.\n\nField description: ";
pub const PART_CURRENT: &'static str = "\n\nCurrent prompt:\n";
pub const PART_FAILURES: &'static str = "\n\nFailed scenarios:\n";
pub const PART_RETURN: &'static str = "\n\nReturn a JSON array of ";
pub const PART_FORMAT: &'static str = " improved prompts. Format:\n[\"improved prompt 1\", \"improved prompt 2\", ...]";

/// The request that asks the model for `n` improved versions of `field`.
pub open spec fn spec_optimization_prompt(
    field: OptimizableField,
    current_value: Seq<char>,
    failure_summary: Seq<char>,
    n: nat,
) -> Seq<char> {
    PART_OPENING@ + decimal(n) + PART_FIELD@ + spec_field_path(field) + PART_DESCRIPTION@
        + spec_description(field) + PART_CURRENT@ + current_value + PART_FAILURES@
        + failure_summary + PART_RETURN@ + decimal(n) + PART_FORMAT@ + if field is AgentSystemPrompt {
        Seq::empty()
    } else {
        TEMPLATE_INSTRUCTION@
    }
}

/// Builds the meta-prompt for the LLM to generate candidate improvements.
pub fn build_optimization_prompt(
    field: &OptimizableField,
    current_value: &str,
    failure_summary: &str,
    num_candidates: usize,
) -> (r: String)
    ensures
        r@ == spec_optimization_prompt(
            *field,
            current_value@,
            failure_summary@,
            num_candidates as nat,
        ),
{
    let field_desc = field.description();
    let field_path = field.field_path();
    let count = decimal_string(num_candidates);
    let mut r = String::from_str(PART_OPENING);
    r.append(count.as_str());
    r.append(PART_FIELD);
    r.append(field_path.as_str());
    r.append(PART_DESCRIPTION);
    r.append(field_desc);
    r.append(PART_CURRENT);
    r.append(current_value);
    r.append(PART_FAILURES);
    r.append(failure_summary);
    r.append(PART_RETURN);
    r.append(count.as_str());
    r.append(PART_FORMAT);
    if field.is_template() {
        r.append(TEMPLATE_INSTRUCTION);
    } else {
        proof {
            reveal_strlit("");
        }
    }
    assert(r@ =~= spec_optimization_prompt(
        *field,
        current_value@,
        failure_summary@,
        num_candidates as nat,
    ));
    r
}

/// Turns the outcome of reading a reply as a JSON array of strings into the
/// candidates, or into an error that says why the reply was unreadable.
pub fn candidates_from_json(parsed: Result<Vec<String>, String>) -> (r: Result<Vec<String>, Error>)
    ensures
        match (parsed, r) {
            (Ok(v), Ok(w)) => v == w,
            (Err(m), Err(Error::LlmResponse(d))) => d@ == "failed to parse candidate prompts: "@
                + m@,
            _ => false,
        },
{
    match parsed {
        Ok(v) => Ok(v),
        Err(m) => Err(Error::LlmResponse(concat2("failed to parse candidate prompts: ", m.as_str()))),
    }
}

/// Reads the candidate prompts from a reply: a JSON array of strings,
/// possibly inside a markdown code block.
pub fn parse_candidate_prompts(response: &str) -> (r: Result<Vec<String>, Error>)
    ensures
        match (json_string_array(spec_strip_code_fences(response@)), r) {
            (Ok(v), Ok(w)) => w@.map_values(|s: String| s@) == v,
            (Err(m), Err(Error::LlmResponse(d))) => d@ == "failed to parse candidate prompts: "@
                + m,
            _ => false,
        },
{
    let s = strip_code_fences(response);
    let parsed = parse_string_array(s);
    candidates_from_json(parsed)
}

/// A candidate for `field` may be tried: a template must keep every
/// placeholder of the current text.
pub fn candidate_admissible(field: &OptimizableField, current_value: &str, candidate: &str) -> (r:
    bool)
    ensures
        r == (field is AgentSystemPrompt || preserves_templates(current_value@, candidate@)),
{
    !field.is_template() || templates_preserved(current_value, candidate)
}

/// The positions `i` with `flags[i] == want`, in increasing order.
pub open spec fn positions(flags: Seq<bool>, want: bool) -> Seq<int>
    decreases flags.len(),
{
    if flags.len() == 0 {
        seq![]
    } else if flags.last() == want {
        positions(flags.drop_last(), want).push(flags.len() - 1)
    } else {
        positions(flags.drop_last(), want)
    }
}

/// The first `limit` positions `i` with `flags[i] == want`, in increasing order.
pub fn positions_of(flags: &Vec<bool>, want: bool, limit: usize) -> (r: Vec<usize>)
    ensures
        r@.map_values(|i: usize| i as int) == positions(flags@, want).take(
            if limit < positions(flags@, want).len() {
                limit as int
            } else {
                positions(flags@, want).len() as int
            },
        ),
{
    let mut r: Vec<usize> = Vec::new();
    let mut i: usize = 0;
    while i < flags.len() && r.len() < limit
        invariant
            i <= flags@.len(),
            r@.len() <= limit,
            r@.map_values(|k: usize| k as int) == positions(flags@.take(i as int), want),
        decreases flags.len() - i,
    {
        assert(flags@.take(i + 1).drop_last() =~= flags@.take(i as int));
        assert(flags@.take(i + 1).last() == flags@[i as int]);
        if flags[i] == want {
            let ghost old_r = r@;
            r.push(i);
            assert(r@.map_values(|k: usize| k as int) =~= old_r.map_values(|k: usize| k as int).push(
                i as int,
            ));
        }
        i = i + 1;
    }
    proof {
        lemma_positions_prefix(flags@, want, i as int);
        if i < flags.len() {
            assert(r@.len() == limit);
        } else {
            assert(flags@.take(i as int) =~= flags@);
        }
        assert(positions(flags@.take(i as int), want) =~= positions(flags@, want).take(
            r@.len() as int,
        ));
    }
    r
}

/// The positions within a prefix are a prefix of the positions.
proof fn lemma_positions_prefix(flags: Seq<bool>, want: bool, i: int)
    requires
        0 <= i <= flags.len(),
    ensures
        positions(flags.take(i), want).len() <= positions(flags, want).len(),
        positions(flags.take(i), want) == positions(flags, want).take(
            positions(flags.take(i), want).len() as int,
        ),
    decreases flags.len() - i,
{
    if i == flags.len() {
        assert(flags.take(i) =~= flags);
    } else {
        lemma_positions_prefix(flags, want, i + 1);
        assert(flags.take(i + 1).drop_last() =~= flags.take(i));
        assert(flags.take(i + 1).last() == flags[i]);
        let a = positions(flags.take(i), want);
        let b = positions(flags.take(i + 1), want);
        let all = positions(flags, want);
        if flags[i] == want {
            assert(b == a.push(i));
            assert(a =~= b.take(a.len() as int));
            assert(all.take(a.len() as int) =~= all.take(b.len() as int).take(a.len() as int));
        } else {
            assert(b == a);
        }
    }
}

/// Every position lies within the flags.
pub proof fn lemma_positions_bound(flags: Seq<bool>, want: bool)
    ensures
        forall|j: int|
            0 <= j < positions(flags, want).len() ==> 0 <= #[trigger] positions(flags, want)[j]
                < flags.len(),
    decreases flags.len(),
{
    if flags.len() > 0 {
        let d = flags.drop_last();
        lemma_positions_bound(d, want);
        let p = positions(flags, want);
        let q = positions(d, want);
        assert forall|j: int| 0 <= j < p.len() implies 0 <= #[trigger] p[j] < flags.len() by {
            if j < q.len() {
                assert(p[j] == q[j]);
            }
        }
    }
}

/// `idx` lists in increasing order the first positions below `n` where `p`
/// holds, as many as there are but at most `max`.
pub open spec fn first_where(n: int, p: spec_fn(int) -> bool, max: nat, idx: Seq<int>) -> bool {
    &&& idx.len() <= max
    &&& forall|k: int| 0 <= k < idx.len() ==> 0 <= #[trigger] idx[k] < n && p(idx[k])
    &&& forall|k: int, l: int| 0 <= k < l < idx.len() ==> #[trigger] idx[k] < #[trigger] idx[l]
    &&& forall|j: int|
        0 <= j < n && #[trigger] p(j) ==> (exists|k: int| 0 <= k < idx.len() && idx[k] == j) || (
        idx.len() == max && (idx.len() == 0 || j > idx[idx.len() - 1]))
}

/// `positions` lists, in increasing order, exactly the positions holding `want`.
pub proof fn lemma_positions_props(flags: Seq<bool>, want: bool)
    ensures
        forall|k: int|
            0 <= k < positions(flags, want).len() ==> 0 <= #[trigger] positions(flags, want)[k]
                < flags.len() && flags[positions(flags, want)[k]] == want,
        forall|k: int, l: int|
            0 <= k < l < positions(flags, want).len() ==> #[trigger] positions(flags, want)[k]
                < #[trigger] positions(flags, want)[l],
        forall|j: int|
            0 <= j < flags.len() && #[trigger] flags[j] == want ==> exists|k: int|
                0 <= k < positions(flags, want).len() && positions(flags, want)[k] == j,
    decreases flags.len(),
{
    if flags.len() > 0 {
        let d = flags.drop_last();
        lemma_positions_props(d, want);
        let p = positions(flags, want);
        let q = positions(d, want);
        assert forall|k: int| 0 <= k < q.len() implies #[trigger] p[k] == q[k] by {}
        assert forall|k: int| 0 <= k < p.len() implies 0 <= #[trigger] p[k] < flags.len()
            && flags[p[k]] == want by {
            if k < q.len() {
                assert(flags[q[k]] == d[q[k]]);
            }
        }
        assert forall|k: int, l: int| 0 <= k < l < p.len() implies #[trigger] p[k]
            < #[trigger] p[l] by {
            if l < q.len() {
            } else {
                assert(p[k] == q[k]);
            }
        }
        assert forall|j: int| 0 <= j < flags.len() && #[trigger] flags[j] == want implies exists|
            k: int,
        | 0 <= k < p.len() && p[k] == j by {
            if j < d.len() {
                assert(d[j] == flags[j]);
                let k = choose|k: int| 0 <= k < q.len() && q[k] == j;
                assert(p[k] == j);
            } else {
                assert(p[p.len() - 1] == j);
            }
        }
    }
}

/// The first `max` positions holding `want` are the first positions where
/// any predicate that agrees with `flags` holds.
pub proof fn lemma_first_positions(flags: Seq<bool>, want: bool, max: nat, p: spec_fn(int) -> bool)
    requires
        forall|j: int| 0 <= j < flags.len() ==> (#[trigger] p(j) <==> flags[j] == want),
    ensures
        first_where(
            flags.len() as int,
            p,
            max,
            positions(flags, want).take(
                if positions(flags, want).len() < max {
                    positions(flags, want).len() as int
                } else {
                    max as int
                },
            ),
        ),
{
    lemma_positions_props(flags, want);
    let all = positions(flags, want);
    let n = if all.len() < max {
        all.len() as int
    } else {
        max as int
    };
    let idx = all.take(n);
    assert forall|k: int| 0 <= k < idx.len() implies 0 <= #[trigger] idx[k] < flags.len() && p(
        idx[k],
    ) by {
        assert(idx[k] == all[k]);
    }
    assert forall|k: int, l: int| 0 <= k < l < idx.len() implies #[trigger] idx[k]
        < #[trigger] idx[l] by {
        assert(idx[k] == all[k] && idx[l] == all[l]);
    }
    assert forall|j: int| 0 <= j < flags.len() && #[trigger] p(j) implies (exists|k: int|
        0 <= k < idx.len() && idx[k] == j) || (idx.len() == max && (idx.len() == 0 || j > idx[
        idx.len() - 1])) by {
        assert(flags[j] == want);
        let k = choose|k: int| 0 <= k < all.len() && all[k] == j;
        if k < n {
            assert(idx[k] == j);
        } else if n > 0 {
            assert(idx[n - 1] == all[n - 1]);
        }
    }
}

} // verus!
