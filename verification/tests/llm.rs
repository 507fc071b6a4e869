use minipaw::config::LlmConfig;
use minipaw::http::decode_chunked;
use minipaw::json::extract_json_string;
use minipaw::llm::{
    completion, extract_chat_content, join_path, reply_for, strip_think_blocks, ChatMessage,
    HttpEndpoint, LlamaCppClient, LlmClient, OfflineLlm,
};

#[test]
fn parses_endpoint() {
    let endpoint = HttpEndpoint::parse("http://192.0.2.1:14416/v1").unwrap();
    assert_eq!(endpoint.host, "192.0.2.1");
    assert_eq!(endpoint.port, 14416);
    assert_eq!(
        join_path(&endpoint.base_path, "/completions"),
        "/v1/completions"
    );
}

#[test]
fn extracts_completion_text() {
    let text = r#"{"choices":[{"text":" minipaw-ok\n"}]}"#;
    assert_eq!(extract_json_string(text, "text").unwrap(), " minipaw-ok\n");
}

#[test]
fn strips_think_blocks() {
    assert_eq!(strip_think_blocks("<think>hidden</think>\nvisible"), "visible");
}

#[test]
fn extracts_chat_content() {
    let text = r#"{"choices":[{"message":{"role":"assistant","content":"clean-ok","reasoning_content":"hidden"}}]}"#;
    assert_eq!(extract_chat_content(text).unwrap(), "clean-ok");
}

#[test]
fn decodes_chunked_body() {
    assert_eq!(
        decode_chunked(b"5\r\nhello\r\n6\r\n world\r\n0\r\n\r\n").unwrap(),
        "hello world"
    );
}

#[test]
fn offline_llm_uses_last_message_content() {
    let mut llm = OfflineLlm;
    let msgs = vec![ChatMessage::user("hello")];
    let resp = llm.chat("sys", &msgs);
    assert!(resp.contains("hello"));
}

fn settings(provider: &str, url: &str, key: Option<&str>) -> LlmConfig {
    LlmConfig {
        provider: provider.into(),
        url: url.into(),
        model: "m\"1".into(),
        api_key: key.map(|k| k.to_owned()),
        thinking: false,
    }
}

#[test]
fn endpoints_have_default_ports_and_paths() {
    let secure = HttpEndpoint::parse("https://api.example").unwrap();
    assert_eq!((secure.scheme.as_str(), secure.port), ("https", 443));
    assert_eq!(secure.base_path, "");
    let plain = HttpEndpoint::parse("http://h:x/a/b").unwrap();
    assert_eq!((plain.host.as_str(), plain.port), ("h:x", 80));
    assert_eq!(plain.base_path, "/a/b");
    assert_eq!(HttpEndpoint::parse("nohost").unwrap_err(), "llm url must include scheme");
    assert_eq!(HttpEndpoint::parse("http:///x").unwrap_err(), "llm url host is empty");
    assert_eq!(HttpEndpoint::parse("http://:80/").unwrap_err(), "llm url host is empty");
    assert_eq!(join_path("", "/p"), "/p");
    assert_eq!(join_path("/v1//", "/p"), "/v1/p");
}

#[test]
fn client_is_made_for_supported_providers() {
    let client = LlamaCppClient::from_config(&settings("openai", "http://h", Some(" k "))).unwrap();
    assert_eq!(client.model(), "m\"1");
    assert_eq!(client.chat_path(), "/v1/chat/completions");
    assert_eq!(client.authorization().unwrap(), "Bearer  k ");
    assert_eq!(client.timeout(), 300);
    assert_eq!(client.endpoint().host, "h");
    let keyless = LlamaCppClient::from_config(&settings("llamacpp", "http://h/x/", Some("  "))).unwrap();
    assert!(keyless.authorization().is_none());
    assert_eq!(keyless.chat_path(), "/x/chat/completions");
    assert_eq!(
        LlamaCppClient::from_config(&settings("other", "http://h", None)).unwrap_err(),
        "unsupported provider: other"
    );
    assert_eq!(
        LlamaCppClient::from_config(&settings("deepseek", "h", None)).unwrap_err(),
        "llm url must include scheme"
    );
}

#[test]
fn chat_body_escapes_what_it_holds() {
    let mut config = settings("llamacpp", "http://h", None);
    let client = LlamaCppClient::from_config(&config).unwrap();
    let messages = vec![ChatMessage::user("a\nb"), ChatMessage::assistant("\u{1}c")];
    assert_eq!(
        client.chat_body("s", &messages),
        "{\"model\":\"m\\\"1\",\"messages\":[{\"role\":\"system\",\"content\":\"s\"},{\"role\":\"user\",\"content\":\"a\\nb\"},{\"role\":\"assistant\",\"content\":\" c\"}],\"max_tokens\":32768,\"temperature\":0.2,\"chat_template_kwargs\":{\"enable_thinking\":false}}"
    );
    config.thinking = true;
    let thinker = LlamaCppClient::from_config(&config).unwrap();
    assert_eq!(
        thinker.chat_body("", &[]),
        "{\"model\":\"m\\\"1\",\"messages\":[],\"max_tokens\":16384,\"temperature\":1.0,\"chat_template_kwargs\":{\"enable_thinking\":true}}"
    );
}

#[test]
fn completions_are_found_or_missed() {
    assert_eq!(
        completion("{\"message\":{\"content\":\"<think>x</think> yes \"}}").unwrap(),
        "yes"
    );
    let missed = "llm response did not contain completion text";
    assert_eq!(completion("{}").unwrap_err(), missed);
    assert_eq!(completion("{\"content\":\"  \"}").unwrap_err(), missed);
    assert_eq!(completion("{\"content\":\"<think>only\"}").unwrap_err(), missed);
    assert_eq!(
        completion("{\"content\":\"early\",\"message\":{\"content\":\" \"}}").unwrap(),
        "early"
    );
    assert_eq!(reply_for(Ok("fine".to_owned())), "fine");
    assert_eq!(reply_for(Err("dns".to_owned())), "llm request failed: dns");
}

#[test]
fn think_blocks_that_do_not_end_reach_to_the_end() {
    assert_eq!(strip_think_blocks("a <think>b"), "a");
    assert_eq!(strip_think_blocks("a<think>b</think>c<think>d</think>e"), "ace");
    assert_eq!(strip_think_blocks("</think> x"), "</think> x");
}

#[test]
fn offline_model_says_that_there_is_none() {
    let mut llm = OfflineLlm;
    assert_eq!(
        llm.next_step("hi"),
        "offline planner noted: hi\nNo LLM provider is configured in this minimal build."
    );
    assert_eq!(
        llm.chat("s", &[]),
        "offline planner noted: \nNo LLM provider is configured in this minimal build."
    );
}
