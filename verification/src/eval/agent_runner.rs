//! The parts of running an agent that do not need the network: the stub
//! agent's canned reply, what a request to an agent holds, and reading the
//! agent's reply.
use vstd::prelude::*;
use crate::config::schema::AuraConfig;
use crate::error::Error;
use crate::json::{json_string_field, string_field};
use crate::llm::client::ChatMessage;
use crate::text::{owned, concat2, take_chars};

verus! {

/// A stub runner that echoes a synthetic response. Useful for tests
/// and for smoke-testing the pipeline without a real agent.
pub struct StubAgentRunner;

impl StubAgentRunner {
    pub fn new() -> (r: Self) {
        StubAgentRunner
    }

    /// The runner's name.
    pub fn name(&self) -> (r: &str)
        ensures
            r@ == "stub"@,
    {
        "stub"
    }

    /// The canned reply of the agent configured by `config` to `input`.
    pub fn respond(&self, config: &AuraConfig, input: &str) -> (r: String)
        ensures
            r@ == "[STUB] Agent '"@ + config.agent.name@ + "' received: "@ + input@,
    {
        let mut r = String::from_str("[STUB] Agent '");
        r.append(config.agent.name.as_str());
        r.append("' received: ");
        r.append(input);
        r
    }
}

impl Default for StubAgentRunner {
    fn default() -> (r: Self) {
        StubAgentRunner::new()
    }
}

/// The chat path of the Aura web server when none is configured.
pub const DEFAULT_AURA_CHAT_PATH: &'static str = "/v1/chat";

/// The JSON keys, in order of preference, under which an Aura web server
/// may put its reply text.
pub open spec fn response_keys() -> Seq<Seq<char>> {
    seq!["response"@, "result"@, "text"@, "output"@, "content"@, "message"@]
}

/// The string under the first of `keys` that the JSON object `body` has.
pub open spec fn first_string_field(body: Seq<char>, keys: Seq<Seq<char>>) -> Option<Seq<char>>
    decreases keys.len(),
{
    if keys.len() == 0 {
        None
    } else {
        match json_string_field(body, keys[0]) {
            Some(s) => Some(s),
            None => first_string_field(body, keys.drop_first()),
        }
    }
}

/// The reply text in a response body: the first preferred key's string if
/// the body is a JSON object with one, else the whole body.
pub open spec fn spec_response_text(body: Seq<char>) -> Seq<char> {
    match first_string_field(body, response_keys()) {
        Some(s) => s,
        None => body,
    }
}

/// Extracts the reply text from the body of an Aura web server response.
pub fn response_text(body: &str) -> (r: String)
    ensures
        r@ == spec_response_text(body@),
{
    proof {
        reveal_with_fuel(first_string_field, 7);
    }
    let ghost keys = response_keys();
    assert(keys.drop_first() =~= seq!["result"@, "text"@, "output"@, "content"@, "message"@]);
    assert(keys.drop_first().drop_first() =~= seq!["text"@, "output"@, "content"@, "message"@]);
    assert(keys.drop_first().drop_first().drop_first() =~= seq!["output"@, "content"@, "message"@]);
    assert(keys.drop_first().drop_first().drop_first().drop_first() =~= seq!["content"@, "message"@]);
    assert(keys.drop_first().drop_first().drop_first().drop_first().drop_first() =~= seq!["message"@]);
    assert(keys.drop_first().drop_first().drop_first().drop_first().drop_first().drop_first() =~= Seq::<Seq<char>>::empty());
    if let Some(s) = string_field(body, "response") {
        return s;
    }
    if let Some(s) = string_field(body, "result") {
        return s;
    }
    if let Some(s) = string_field(body, "text") {
        return s;
    }
    if let Some(s) = string_field(body, "output") {
        return s;
    }
    if let Some(s) = string_field(body, "content") {
        return s;
    }
    if let Some(s) = string_field(body, "message") {
        return s;
    }
    owned(body)
}

/// The model an OpenAI-compatible agent request names: the override when
/// there is one, else the model of the configuration.
pub fn request_model<'a>(model_override: &'a Option<String>, config: &'a AuraConfig) -> (r: &'a str)
    ensures
        r@ == match model_override {
            Some(m) => m@,
            None => config.llm.spec_model_name(),
        },
{
    match model_override {
        Some(m) => m.as_str(),
        None => config.llm.model_name(),
    }
}

/// The messages of an agent request: the configured system prompt, then the input.
pub fn agent_messages(config: &AuraConfig, input: &str) -> (r: Vec<ChatMessage>)
    ensures
        r@.len() == 2,
        r@[0].role@ == "system"@,
        r@[0].content@ == config.agent.system_prompt@,
        r@[1].role@ == "user"@,
        r@[1].content@ == input@,
{
    let mut r: Vec<ChatMessage> = Vec::new();
    r.push(ChatMessage::system(config.agent.system_prompt.as_str()));
    r.push(ChatMessage::user(input));
    r
}

/// The most characters of an error body that an error message quotes.
pub const ERROR_BODY_LIMIT: usize = 500;

/// The message for an endpoint that answered with a failure status: who
/// answered, the status, and the start of the body.
pub open spec fn failure_message(source: Seq<char>, status: Seq<char>, body: Seq<char>) -> Seq<
    char,
> {
    source + " returned HTTP "@ + status + ": "@ + body.take(
        if ERROR_BODY_LIMIT < body.len() {
            ERROR_BODY_LIMIT as int
        } else {
            body.len() as int
        },
    )
}

/// The error for an agent endpoint that answered with a failure status:
/// who answered, the status, and the start of the body.
pub fn http_failure(source: &str, status: &str, body: &str) -> (r: Error)
    ensures
        r matches Error::Eval(m) && m@ == failure_message(source@, status@, body@),
{
    let mut m = concat2(source, " returned HTTP ");
    m.append(status);
    m.append(": ");
    let quoted = take_chars(body, ERROR_BODY_LIMIT);
    m.append(quoted.as_str());
    Error::Eval(m)
}

/// The content of the first choice of a chat completion, if it has one.
pub fn first_choice_content(contents: Vec<Option<String>>) -> (r: Option<String>)
    ensures
        r == if contents@.len() > 0 {
            contents@[0]
        } else {
            None
        },
{
    let mut contents = contents;
    if contents.len() > 0 {
        contents.remove(0)
    } else {
        None
    }
}

/// What an Aura web server's answer gives the run: for a failure status,
/// the failure that quotes the status and the start of the body; else the
/// reply text of the body.
pub fn aura_reply(success: bool, status: &str, body: &str) -> (r: Result<String, Error>)
    ensures
        !success ==> (r matches Err(Error::Eval(m)) && m@ == failure_message("aura"@, status@, body@)),
        success ==> (r matches Ok(t) && t@ == spec_response_text(body@)),
{
    if !success {
        Err(http_failure("aura", status, body))
    } else {
        Ok(response_text(body))
    }
}

/// The message for a chat completion that has no content to return.
pub const EMPTY_RESPONSE: &'static str = "agent returned empty response";

/// The prefix of the message for a chat completion that did not parse.
pub const UNPARSED_RESPONSE: &'static str = "failed to parse agent response: ";

/// What an OpenAI-compatible endpoint's answer gives the run: for a
/// failure status, the failure that quotes the status and the start of the
/// body; for a body that did not parse as a chat completion, that parse
/// error; else the content of the first choice, or the empty-response
/// failure when there is none.  `choices` holds each choice's content.
pub fn openai_reply(
    success: bool,
    status: &str,
    body: &str,
    choices: Result<Vec<Option<String>>, String>,
) -> (r: Result<String, Error>)
    ensures
        !success ==> (r matches Err(Error::Eval(m)) && m@ == failure_message("agent"@, status@, body@)),
        success ==> match choices {
            Err(e) => r matches Err(Error::Eval(m)) && m@ == UNPARSED_RESPONSE@ + e@,
            Ok(cs) => if cs@.len() > 0 && cs@[0] is Some {
                r matches Ok(t) && t == cs@[0]->Some_0
            } else {
                r matches Err(Error::Eval(m)) && m@ == EMPTY_RESPONSE@
            },
        },
{
    if !success {
        return Err(http_failure("agent", status, body));
    }
    match choices {
        Err(e) => Err(Error::Eval(concat2(UNPARSED_RESPONSE, e.as_str()))),
        Ok(cs) => match first_choice_content(cs) {
            Some(t) => Ok(t),
            None => Err(Error::Eval(owned(EMPTY_RESPONSE))),
        },
    }
}

} // verus!
