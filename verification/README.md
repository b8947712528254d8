# aura_prompt_opt

A DSPy-style prompt optimizer for Aura TOML agent configurations, written
in Verus. It takes an Aura configuration, evaluates it on scenarios, and
rewrites the agent's system prompt, the orchestration prompt templates and
the worker preambles to score better, then writes the optimized TOML and an
annotated report of every decision.

Layout:

- `src/` — the verified library. The optimizers (`BootstrapFewShot`,
  `InstructionOptimizer`, `MiproOptimizer` and the full pipeline) are state
  machines: each step takes the answer to the previous action (an
  evaluation, or a reply from the model) and names the next action. Their
  contracts state every transition exactly; laws state that a finished run
  never reports a result below its baseline. The configuration model,
  prompt templates and their placeholders, the annotated report, the Helm
  values files (read and written through serde_yaml), the optimizer client's
  settings and the text handling are verified as well.
- `app/` — the command-line program: reading and writing TOML and JSON
  files, the environment, HTTP calls to the agent and the model, averaging floating-point
  scores, and the loops that answer the optimizers' actions.
- `tests/` — tests of the library.

Scores are non-negative `f64` values; the library holds them as their bit
patterns, which order them as the numbers are ordered.
