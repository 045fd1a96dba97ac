use gpt_api::config::{ClientConfig, ModelMatch};
use gpt_api::gateway::{endpoint_path, validate_payload};
use gpt_api::json::Json;
use gpt_api::payload::{
    build_request_body_generic, routing_keys, ChatCompletionRequest, CompletionRequest, Message,
    MessageContent, RequestPayload,
};
use gpt_api::preprocess::{filter_empty_messages, prepare_chat_request, process_messages,
    remove_think_tags};

fn provider(stop: Option<Vec<String>>, max_tokens: Option<u32>) -> ClientConfig {
    ClientConfig {
        name: "a".to_string(),
        base_url: "http://upstream".to_string(),
        api_key: None,
        model_match: ModelMatch {
            match_type: "exact".to_string(),
            value: vec!["gpt-x".to_string()],
        },
        priority: Some(1),
        fallback: None,
        special_prefix: None,
        stop,
        max_tokens,
    }
}

fn message(role: &str, content: &str) -> Message {
    Message {
        role: role.to_string(),
        content: Some(MessageContent::Text(content.to_string())),
        tool_calls: None,
        tool_call_id: None,
    }
}

fn chat(messages: Vec<Message>) -> ChatCompletionRequest {
    ChatCompletionRequest {
        model: "gpt-x".to_string(),
        messages,
        stream: Some(false),
        temperature: None,
        max_tokens: Some(500),
        stop: Some(vec!["REQ".to_string(), "BOTH".to_string()]),
        tools: None,
        chat_template_kwargs: None,
    }
}

#[test]
fn chat_body_carries_clamp_and_merge() {
    let payload = RequestPayload::Chat(chat(vec![message("user", "hi")]));
    let client = provider(
        Some(vec!["BOTH".to_string(), "PROV".to_string()]),
        Some(100),
    );
    let body = build_request_body_generic(&payload, &client, false);

    assert_eq!(body.get("model").unwrap().as_str().unwrap().as_str(), "gpt-x");
    assert_eq!(body.get("max_tokens").unwrap().as_u64(), Some(100));
    let stops = body.get("stop").unwrap().as_arr().unwrap();
    let words: Vec<String> = stops
        .iter()
        .map(|w| w.as_str().unwrap().clone())
        .collect();
    assert_eq!(words, vec!["BOTH", "PROV", "REQ"]);
    assert!(matches!(body.get("stream").unwrap(), Json::Bool(false)));
    assert!(body.get("temperature").is_none());
    assert!(body.get("tools").is_none());

    let messages = body.get("messages").unwrap().as_arr().unwrap();
    assert_eq!(messages.len(), 1);
    assert_eq!(
        messages[0].get("role").unwrap().as_str().unwrap().as_str(),
        "user"
    );
    assert_eq!(
        messages[0].get("content").unwrap().as_str().unwrap().as_str(),
        "hi"
    );
}

#[test]
fn completion_body_has_prompt() {
    let payload = RequestPayload::Completion(CompletionRequest {
        model: "gpt-x".to_string(),
        prompt: "Once upon".to_string(),
        stream: Some(true),
        temperature: None,
        max_tokens: None,
        stop: None,
    });
    let client = provider(None, None);
    let body = build_request_body_generic(&payload, &client, true);
    assert_eq!(body.get("prompt").unwrap().as_str().unwrap().as_str(), "Once upon");
    assert!(matches!(body.get("stream").unwrap(), Json::Bool(true)));
    assert!(body.get("max_tokens").is_none());
    assert!(body.get("stop").is_none());
}

#[test]
fn endpoint_paths_by_kind() {
    let chat_payload = RequestPayload::Chat(chat(vec![message("user", "hi")]));
    let (path, is_chat) = endpoint_path(&chat_payload);
    assert_eq!(path, "chat/completions");
    assert!(is_chat);
}

#[test]
fn validation_rejects_empty_inputs() {
    let empty_chat = RequestPayload::Chat(chat(vec![]));
    assert_eq!(
        validate_payload(&empty_chat),
        Some("Request param messages not arr or arr is empty".to_string())
    );
    let ok_chat = RequestPayload::Chat(chat(vec![message("user", "hi")]));
    assert_eq!(validate_payload(&ok_chat), None);

    let empty_prompt = RequestPayload::Completion(CompletionRequest {
        model: "gpt-x".to_string(),
        prompt: String::new(),
        stream: None,
        temperature: None,
        max_tokens: None,
        stop: None,
    });
    assert_eq!(
        validate_payload(&empty_prompt),
        Some("Request param prompt is empty".to_string())
    );
}

#[test]
fn model_get_set_and_streaming() {
    let mut payload = RequestPayload::Chat(chat(vec![message("user", "hi")]));
    assert_eq!(payload.get_model().as_str(), "gpt-x");
    assert!(!payload.is_streaming());
    payload.set_model("gpt-y".to_string());
    assert_eq!(payload.get_model().as_str(), "gpt-y");
}

#[test]
fn process_messages_trims_merges_and_drops() {
    let processed = process_messages(vec![
        message("user", "  first  "),
        message("user", "second"),
        message("assistant", "   "),
        message("assistant", "reply"),
    ]);
    // Consecutive user messages merge to the later one; the blank
    // assistant message is dropped.
    assert_eq!(processed.len(), 2);
    match &processed[0].content {
        Some(MessageContent::Text(s)) => assert_eq!(s, "second"),
        _ => panic!("expected text content"),
    }
    match &processed[1].content {
        Some(MessageContent::Text(s)) => assert_eq!(s, "reply"),
        _ => panic!("expected text content"),
    }
}

#[test]
fn filter_drops_blank_messages() {
    let kept = filter_empty_messages(vec![
        message("user", "  "),
        message("user", "real"),
        Message {
            role: "assistant".to_string(),
            content: None,
            tool_calls: Some(Json::Arr(vec![])),
            tool_call_id: None,
        },
        Message {
            role: "assistant".to_string(),
            content: None,
            tool_calls: None,
            tool_call_id: None,
        },
    ]);
    assert_eq!(kept.len(), 2);
    assert_eq!(kept[0].role, "user");
    assert_eq!(kept[1].role, "assistant");
}

#[test]
fn think_tags_are_removed_from_assistant_messages() {
    let stripped = remove_think_tags(vec![
        message("assistant", "a<think>secret</think>b<think>more</think>c"),
        message("user", "<think>kept for users</think>"),
        message("assistant", "open<think>unclosed"),
    ]);
    match &stripped[0].content {
        Some(MessageContent::Text(s)) => assert_eq!(s, "abc"),
        _ => panic!("expected text content"),
    }
    match &stripped[1].content {
        Some(MessageContent::Text(s)) => assert_eq!(s, "<think>kept for users</think>"),
        _ => panic!("expected text content"),
    }
    match &stripped[2].content {
        Some(MessageContent::Text(s)) => assert_eq!(s, "open<think>unclosed"),
        _ => panic!("expected text content"),
    }
}

#[test]
fn prepare_chat_runs_the_whole_pipeline() {
    let payload = RequestPayload::Chat(chat(vec![
        message("user", "  hi  "),
        message("assistant", "ok<think>x</think>!"),
    ]));
    let prepared = prepare_chat_request(payload);
    match prepared {
        RequestPayload::Chat(p) => {
            assert_eq!(p.messages.len(), 2);
            match &p.messages[1].content {
                Some(MessageContent::Text(s)) => assert_eq!(s, "ok!"),
                _ => panic!("expected text content"),
            }
        }
        _ => panic!("expected a chat payload"),
    }
}

#[test]
fn routing_keys_take_user_prefixes() {
    let long: String = "y".repeat(100);
    let payload = RequestPayload::Chat(chat(vec![
        message("user", "short"),
        message("assistant", "not an anchor"),
        message("user", &long),
    ]));
    let keys = routing_keys(&payload);
    assert_eq!(keys.len(), 2);
    assert_eq!(keys[0].content, "short");
    assert_eq!(keys[0].weight, 5);
    assert_eq!(keys[1].content, "y".repeat(64));
    assert_eq!(keys[1].weight, 100);
}
