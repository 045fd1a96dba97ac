use gpt_api::audio::{plan_audio_request, MultipartPart};
use gpt_api::json::Json;
use gpt_api::payload::{ChatCompletionRequest, ContentPart, Message, MessageContent,
    RequestPayload};
use gpt_api::telemetry::{aggregate_models, build_record, now_rfc3339, update_success_windows,
    SuccessWindows};
use gpt_api::transform::apply_prefix_to_json;

fn obj(pairs: Vec<(&str, Json)>) -> Json {
    Json::Obj(pairs.into_iter().map(|(k, v)| (k.to_string(), v)).collect())
}

fn text(s: &str) -> Json {
    Json::Text(s.to_string())
}

fn chat_payload(messages: Vec<Message>) -> RequestPayload {
    RequestPayload::Chat(ChatCompletionRequest {
        model: "gpt-x".to_string(),
        messages,
        stream: None,
        temperature: None,
        max_tokens: None,
        stop: None,
        tools: None,
        chat_template_kwargs: None,
    })
}

#[test]
fn record_extracts_usage_and_flags() {
    let image_message = Message {
        role: "user".to_string(),
        content: Some(MessageContent::Parts(vec![ContentPart {
            part_type: "image_url".to_string(),
            text: None,
            image_url: Some(text("http://img")),
        }])),
        tool_calls: None,
        tool_call_id: None,
    };
    let payload = chat_payload(vec![image_message]);
    let request_body = obj(vec![("tools", Json::Arr(vec![]))]);
    let response_body = obj(vec![(
        "usage",
        obj(vec![
            ("prompt_tokens", Json::UInt(7)),
            ("completion_tokens", Json::UInt(11)),
            ("total_tokens", Json::UInt(18)),
        ]),
    )]);
    let record = build_record(
        now_rfc3339(),
        "1.2.3.4".to_string(),
        "{}".to_string(),
        &payload,
        &request_body,
        &response_body,
        "req".to_string(),
        "resp".to_string(),
    );
    assert_eq!(record.model, "gpt-x");
    assert_eq!(record.record_type, "chat.completions");
    assert_eq!(record.prompt_tokens, 7);
    assert_eq!(record.completion_tokens, 11);
    assert_eq!(record.total_tokens, 18);
    assert!(record.tool);
    assert!(record.multimodal);
    assert!(!record.time.is_empty());
}

#[test]
fn record_defaults_when_usage_is_absent() {
    let payload = chat_payload(vec![Message {
        role: "user".to_string(),
        content: Some(MessageContent::Text("hi".to_string())),
        tool_calls: None,
        tool_call_id: None,
    }]);
    let record = build_record(
        "t".to_string(),
        "ip".to_string(),
        "{}".to_string(),
        &payload,
        &obj(vec![]),
        &obj(vec![]),
        "req".to_string(),
        "resp".to_string(),
    );
    assert_eq!(record.prompt_tokens, 0);
    assert!(!record.tool);
    assert!(!record.multimodal);
}

#[test]
fn model_lists_flatten_and_dedup_by_id() {
    let a = obj(vec![(
        "data",
        Json::Arr(vec![
            obj(vec![("id", text("m1"))]),
            obj(vec![("id", text("m2"))]),
        ]),
    )]);
    let b = obj(vec![(
        "data",
        Json::Arr(vec![
            obj(vec![("id", text("m2"))]),
            obj(vec![("id", text("m3"))]),
        ]),
    )]);
    let single = obj(vec![("id", text("m1"))]);
    let out = aggregate_models(&vec![Some(a), None, Some(b), Some(single)]);
    assert_eq!(out.get("object").unwrap().as_str().unwrap().as_str(), "list");
    let data = out.get("data").unwrap().as_arr().unwrap();
    let ids: Vec<String> = data
        .iter()
        .map(|m| m.get("id").unwrap().as_str().unwrap().clone())
        .collect();
    assert_eq!(ids, vec!["m1", "m2", "m3"]);
}

#[test]
fn success_windows_evict_oldest() {
    let mut w = SuccessWindows::new();
    for _ in 0..70 {
        update_success_windows(&mut w, true);
    }
    for _ in 0..30 {
        update_success_windows(&mut w, false);
    }
    let (ok_1m, total_1m) = w.w1m.counts();
    assert_eq!(total_1m, 60);
    assert_eq!(ok_1m, 30);
    let (ok_10m, total_10m) = w.w10m.counts();
    assert_eq!(total_10m, 100);
    assert_eq!(ok_10m, 70);
}

#[test]
fn audio_request_takes_model_from_form() {
    let parts = vec![
        MultipartPart {
            name: "file".to_string(),
            data: vec![1, 2, 3],
            file_name: Some("a.wav".to_string()),
            content_type: Some("audio/wav".to_string()),
        },
        MultipartPart {
            name: "model".to_string(),
            data: b"whisper-1".to_vec(),
            file_name: None,
            content_type: None,
        },
    ];
    let req = plan_audio_request(parts, "audio/transcriptions".to_string()).unwrap();
    assert_eq!(req.model, "whisper-1");
    assert_eq!(req.endpoint, "audio/transcriptions");
    assert_eq!(req.parts.len(), 2);
}

#[test]
fn audio_request_without_model_is_rejected() {
    let parts = vec![MultipartPart {
        name: "file".to_string(),
        data: vec![1],
        file_name: None,
        content_type: None,
    }];
    let err = match plan_audio_request(parts, "audio/translations".to_string()) {
        Err(msg) => msg,
        Ok(_) => panic!("expected a rejection"),
    };
    assert_eq!(err, "Missing 'model' field in multipart form data");
}

#[test]
fn non_streaming_prefix_applies_to_every_choice() {
    let body = obj(vec![(
        "choices",
        Json::Arr(vec![
            obj(vec![("message", obj(vec![("content", text("hello"))]))]),
            obj(vec![("message", obj(vec![("content", text("world"))]))]),
        ]),
    )]);
    let out = apply_prefix_to_json(body, "✦ ", true);
    let choices = out.get("choices").unwrap().as_arr().unwrap();
    for (i, expected) in ["✦ hello", "✦ world"].iter().enumerate() {
        let message = choices[i].get("message").unwrap();
        assert_eq!(message.get("content").unwrap().as_str().unwrap().as_str(), *expected);
    }
}

#[test]
fn non_streaming_prefix_on_completion_text() {
    let body = obj(vec![(
        "choices",
        Json::Arr(vec![obj(vec![("text", text("done"))])]),
    )]);
    let out = apply_prefix_to_json(body, "* ", false);
    let choices = out.get("choices").unwrap().as_arr().unwrap();
    assert_eq!(choices[0].get("text").unwrap().as_str().unwrap().as_str(), "* done");
}
