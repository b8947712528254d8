//! Messages for an OpenAI-compatible chat completions endpoint.
use vstd::prelude::*;
use crate::text::{owned, chars_of, concat2};
use crate::error::Error;
use crate::eval::agent_runner::first_choice_content;

verus! {

/// Default base URL for the LLM API (OpenAI).
///
/// To use OpenRouter or another OpenAI-compatible provider, set the
/// `OPTIMIZER_BASE_URL` environment variable (e.g. `https://openrouter.ai/api/v1`).
pub const DEFAULT_BASE_URL: &'static str = "https://api.openai.com/v1";

/// Default model name used when none is specified.
pub const DEFAULT_MODEL: &'static str = "gpt-4o";

/// One message of a chat conversation.
#[derive(Debug, Clone)]
pub struct ChatMessage {
    pub role: String,
    pub content: String,
}

impl ChatMessage {
    /// A system message.
    pub fn system(content: &str) -> (r: Self)
        ensures
            r.role@ == "system"@,
            r.content@ == content@,
    {
        ChatMessage { role: owned("system"), content: owned(content) }
    }

    /// A user message.
    pub fn user(content: &str) -> (r: Self)
        ensures
            r.role@ == "user"@,
            r.content@ == content@,
    {
        ChatMessage { role: owned("user"), content: owned(content) }
    }

    /// An assistant message.
    pub fn assistant(content: &str) -> (r: Self)
        ensures
            r.role@ == "assistant"@,
            r.content@ == content@,
    {
        ChatMessage { role: owned("assistant"), content: owned(content) }
    }
}

/// `s` without any trailing `c` characters (`str::trim_end_matches` with a char).
pub open spec fn trim_end_char(s: Seq<char>, c: char) -> Seq<char>
    decreases s.len(),
{
    if s.len() > 0 && s.last() == c {
        trim_end_char(s.drop_last(), c)
    } else {
        s
    }
}

/// `base` without trailing slashes, followed by `path`.
pub fn join_url(base: &str, path: &str) -> (r: String)
    ensures
        r@ == trim_end_char(base@, '/') + path@,
{
    let v = chars_of(base);
    let mut end = v.len();
    assert(v@.subrange(0, v@.len() as int) =~= v@);
    while end > 0 && v[end - 1] == '/'
        invariant
            end <= v@.len(),
            trim_end_char(v@.subrange(0, end as int), '/') == trim_end_char(v@, '/'),
        decreases end,
    {
        assert(v@.subrange(0, end as int).drop_last() =~= v@.subrange(0, end - 1));
        end = end - 1;
    }
    let head = crate::text::substring(base, 0, end);
    concat2(head.as_str(), path)
}

/// The chat completions endpoint under `base_url`.
pub fn chat_completions_url(base_url: &str) -> (r: String)
    ensures
        r@ == trim_end_char(base_url@, '/') + "/chat/completions"@,
{
    join_url(base_url, "/chat/completions")
}


/// The first key that is set, in order of preference, or the empty key.
pub open spec fn chosen_key(
    optimizer_key: Option<String>,
    openrouter_key: Option<String>,
    openai_key: Option<String>,
) -> Seq<char> {
    match (optimizer_key, openrouter_key, openai_key) {
        (Some(k), _, _) => k@,
        (None, Some(k), _) => k@,
        (None, None, Some(k)) => k@,
        _ => Seq::empty(),
    }
}

/// The optimizer client's base URL, model and API key, from the settings
/// found: the base URL and model fall back to their defaults, and the API key
/// falls back from `OPTIMIZER_API_KEY` to `OPENROUTER_API_KEY`, then to
/// `OPENAI_API_KEY`, then to none.
pub fn client_settings(
    base_url: Option<String>,
    model: Option<String>,
    optimizer_key: Option<String>,
    openrouter_key: Option<String>,
    openai_key: Option<String>,
) -> (r: (String, String, String))
    ensures
        r.0@ == match base_url {
            Some(b) => b@,
            None => DEFAULT_BASE_URL@,
        },
        r.1@ == match model {
            Some(m) => m@,
            None => DEFAULT_MODEL@,
        },
        r.2@ == chosen_key(optimizer_key, openrouter_key, openai_key),
{
    let b = match base_url {
        Some(b) => b,
        None => owned(DEFAULT_BASE_URL),
    };
    let m = match model {
        Some(m) => m,
        None => owned(DEFAULT_MODEL),
    };
    let k = match (optimizer_key, openrouter_key, openai_key) {
        (Some(k), _, _) => k,
        (None, Some(k), _) => k,
        (None, None, Some(k)) => k,
        _ => String::new(),
    };
    (b, m, k)
}

/// The message for a chat completion that has no content to return.
pub const EMPTY_LLM_RESPONSE: &'static str = "empty response from LLM";

/// What the optimizer model's answer gives a chat: for a failure status, a
/// malformed-response error that quotes the status and the whole body; for a
/// body that could not be read as a chat completion, a request error with
/// that error's text; else the content of the first choice, or the
/// empty-response error when there is none.  `choices` holds each choice's
/// content.
pub fn llm_reply(
    success: bool,
    status: &str,
    body: &str,
    choices: Result<Vec<Option<String>>, String>,
) -> (r: Result<String, Error>)
    ensures
        !success ==> (r matches Err(Error::LlmResponse(m)) && m@ == "HTTP "@ + status@ + ": "@
            + body@),
        success ==> match choices {
            Err(e) => r matches Err(Error::LlmRequest(m)) && m@ == e@,
            Ok(cs) => if cs@.len() > 0 && cs@[0] is Some {
                r matches Ok(t) && t == cs@[0]->Some_0
            } else {
                r matches Err(Error::LlmResponse(m)) && m@ == EMPTY_LLM_RESPONSE@
            },
        },
{
    if !success {
        let mut m = concat2("HTTP ", status);
        m.append(": ");
        m.append(body);
        return Err(Error::LlmResponse(m));
    }
    match choices {
        Err(e) => Err(Error::LlmRequest(e)),
        Ok(cs) => match first_choice_content(cs) {
            Some(t) => Ok(t),
            None => Err(Error::LlmResponse(owned(EMPTY_LLM_RESPONSE))),
        },
    }
}

} // verus!
