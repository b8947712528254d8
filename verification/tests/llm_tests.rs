use aura_prompt_opt::llm::client::{
    chat_completions_url, client_settings, join_url, llm_reply, ChatMessage, DEFAULT_BASE_URL, DEFAULT_MODEL,
};
use aura_prompt_opt::error::Error;

#[test]
fn test_chat_message_constructors() {
    let sys = ChatMessage::system("you are a bot");
    assert_eq!(sys.role, "system");
    assert_eq!(sys.content, "you are a bot");

    let user = ChatMessage::user("hello");
    assert_eq!(user.role, "user");

    let asst = ChatMessage::assistant("hi there");
    assert_eq!(asst.role, "assistant");
}

#[test]
fn urls_drop_trailing_slashes() {
    assert_eq!(chat_completions_url("https://api.openai.com/v1/"), "https://api.openai.com/v1/chat/completions");
    assert_eq!(chat_completions_url(DEFAULT_BASE_URL), "https://api.openai.com/v1/chat/completions");
    assert_eq!(join_url("http://aura:8080//", "/v1/chat"), "http://aura:8080/v1/chat");
    assert_eq!(DEFAULT_MODEL, "gpt-4o");
}

#[test]
fn client_settings_fall_back_to_defaults() {
    let (b, m, k) = client_settings(None, None, None, None, None);
    assert_eq!(b, DEFAULT_BASE_URL);
    assert_eq!(b, "https://api.openai.com/v1");
    assert_eq!(m, DEFAULT_MODEL);
    assert_eq!(k, "");
}

#[test]
fn client_settings_prefer_the_optimizer_key() {
    let some = |x: &str| Some(x.to_string());
    let (b, m, k) = client_settings(some("http://x"), some("m1"), some("a"), some("b"), some("c"));
    assert_eq!((b.as_str(), m.as_str(), k.as_str()), ("http://x", "m1", "a"));
    assert_eq!(client_settings(None, None, None, some("b"), some("c")).2, "b");
    assert_eq!(client_settings(None, None, None, None, some("c")).2, "c");
}

#[test]
fn llm_reply_decides_the_chat_result() {
    assert_eq!(llm_reply(true, "", "", Ok(vec![Some("hi".to_string())])).unwrap(), "hi");
    match llm_reply(false, "429 Too Many Requests", "slow down", Ok(vec![])) {
        Err(Error::LlmResponse(m)) => assert_eq!(m, "HTTP 429 Too Many Requests: slow down"),
        other => panic!("unexpected {other:?}"),
    }
    match llm_reply(true, "", "", Ok(vec![None])) {
        Err(Error::LlmResponse(m)) => assert_eq!(m, "empty response from LLM"),
        other => panic!("unexpected {other:?}"),
    }
    match llm_reply(true, "", "", Err("error decoding response body".to_string())) {
        Err(Error::LlmRequest(m)) => assert_eq!(m, "error decoding response body"),
        other => panic!("unexpected {other:?}"),
    }
}
