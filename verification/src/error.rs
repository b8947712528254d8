//! The library's error type.
use vstd::prelude::*;
use crate::text::concat2;

verus! {

/// What can go wrong; each variant carries a human-readable detail.
#[derive(Debug, Clone)]
pub enum Error {
    TomlParse(String),
    TomlSerialize(String),
    LlmRequest(String),
    LlmResponse(String),
    Eval(String),
    Optimization(String),
    Compilation(String),
    Config(String),
}

pub type Result<T> = std::result::Result<T, Error>;

impl Error {
    /// The text that reports this error.
    pub open spec fn spec_message(&self) -> Seq<char> {
        match self {
            Error::TomlParse(d) => "TOML parse error: "@ + d@,
            Error::TomlSerialize(d) => "TOML serialize error: "@ + d@,
            Error::LlmRequest(d) => "LLM request failed: "@ + d@,
            Error::LlmResponse(d) => "LLM response malformed: "@ + d@,
            Error::Eval(d) => "Evaluation error: "@ + d@,
            Error::Optimization(d) => "Optimization error: "@ + d@,
            Error::Compilation(d) => "Compilation error: "@ + d@,
            Error::Config(d) => "Configuration error: "@ + d@,
        }
    }

    /// The text that reports this error.
    pub fn message(&self) -> (r: String)
        ensures
            r@ == self.spec_message(),
    {
        match self {
            Error::TomlParse(d) => concat2("TOML parse error: ", d.as_str()),
            Error::TomlSerialize(d) => concat2("TOML serialize error: ", d.as_str()),
            Error::LlmRequest(d) => concat2("LLM request failed: ", d.as_str()),
            Error::LlmResponse(d) => concat2("LLM response malformed: ", d.as_str()),
            Error::Eval(d) => concat2("Evaluation error: ", d.as_str()),
            Error::Optimization(d) => concat2("Optimization error: ", d.as_str()),
            Error::Compilation(d) => concat2("Compilation error: ", d.as_str()),
            Error::Config(d) => concat2("Configuration error: ", d.as_str()),
        }
    }
}

} // verus!
