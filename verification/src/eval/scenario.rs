//! Evaluation scenarios and datasets.
use vstd::prelude::*;
use crate::text::owned;

verus! {

/// One input to run the agent on, with what a good answer looks like.
#[derive(Debug, Clone)]
pub struct EvalScenario {
    pub name: String,
    pub input: String,
    pub expected_output: Option<String>,
    pub tags: Vec<String>,
    pub task_description: Option<String>,
}

impl EvalScenario {
    /// A scenario with a name and an input, and nothing else.
    pub fn new(name: &str, input: &str) -> (r: Self)
        ensures
            r.name@ == name@,
            r.input@ == input@,
            r.expected_output is None,
            r.tags@.len() == 0,
            r.task_description is None,
    {
        EvalScenario {
            name: owned(name),
            input: owned(input),
            expected_output: None,
            tags: Vec::new(),
            task_description: None,
        }
    }

    /// The scenario with the expected output `expected`.
    pub fn with_expected(self, expected: &str) -> (r: Self)
        ensures
            r.expected_output matches Some(e) && e@ == expected@,
            r.name == self.name,
            r.input == self.input,
            r.tags == self.tags,
            r.task_description == self.task_description,
    {
        EvalScenario { expected_output: Some(owned(expected)), ..self }
    }

    /// The scenario with the task description `desc`.
    pub fn with_task_description(self, desc: &str) -> (r: Self)
        ensures
            r.task_description matches Some(d) && d@ == desc@,
            r.name == self.name,
            r.input == self.input,
            r.tags == self.tags,
            r.expected_output == self.expected_output,
    {
        EvalScenario { task_description: Some(owned(desc)), ..self }
    }

    /// The scenario with the tags `tags`.
    pub fn with_tags(self, tags: Vec<String>) -> (r: Self)
        ensures
            r.tags == tags,
            r.name == self.name,
            r.input == self.input,
            r.expected_output == self.expected_output,
            r.task_description == self.task_description,
    {
        EvalScenario { tags, ..self }
    }
}

/// A named list of scenarios.
#[derive(Debug, Clone, Default)]
pub struct EvalDataset {
    pub name: String,
    pub scenarios: Vec<EvalScenario>,
}

impl EvalDataset {
    /// An empty dataset.
    pub fn new(name: &str) -> (r: Self)
        ensures
            r.name@ == name@,
            r.scenarios@.len() == 0,
    {
        EvalDataset { name: owned(name), scenarios: Vec::new() }
    }

    /// The dataset with `scenario` appended.
    pub fn add(self, scenario: EvalScenario) -> (r: Self)
        ensures
            r.name == self.name,
            r.scenarios@ == self.scenarios@.push(scenario),
    {
        let mut s = self;
        s.scenarios.push(scenario);
        s
    }

    /// The number of scenarios.
    pub fn len(&self) -> (r: usize)
        ensures
            r == self.scenarios@.len(),
    {
        self.scenarios.len()
    }

    /// Whether there are no scenarios.
    pub fn is_empty(&self) -> (r: bool)
        ensures
            r == (self.scenarios@.len() == 0),
    {
        self.scenarios.len() == 0
    }
}

} // verus!
