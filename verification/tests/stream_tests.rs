use gpt_api::json::Json;
use gpt_api::stream::{StreamAccumulator, StreamLog};
use gpt_api::transform::{SseData, StreamTransform};

fn obj(pairs: Vec<(&str, Json)>) -> Json {
    Json::Obj(pairs.into_iter().map(|(k, v)| (k.to_string(), v)).collect())
}

fn text(s: &str) -> Json {
    Json::Text(s.to_string())
}

fn chat_chunk(content: &str) -> Json {
    obj(vec![(
        "choices",
        Json::Arr(vec![obj(vec![("delta", obj(vec![("content", text(content))]))])]),
    )])
}

fn chunk_content(chunk: &Json) -> String {
    let choices = chunk.get("choices").unwrap().as_arr().unwrap();
    let delta = choices[0].get("delta").unwrap();
    delta.get("content").unwrap().as_str().unwrap().clone()
}

#[test]
fn stream_with_prefix() {
    // Deltas "he", "llo" under prefix "✦ ": the first chunk is spliced,
    // the second passes untouched, the terminator is forwarded, and the
    // reconstructed content is "✦ hello".
    let mut t = StreamTransform::new("✦ ".to_string(), true);
    let mut log = StreamLog::new(true);

    let out1 = t.transform(SseData::Parsed(chat_chunk("he")));
    let c1 = match out1 {
        SseData::Parsed(v) => v,
        _ => panic!("expected a parsed chunk"),
    };
    assert_eq!(chunk_content(&c1), "✦ he");
    log.push(c1);

    let out2 = t.transform(SseData::Parsed(chat_chunk("llo")));
    let c2 = match out2 {
        SseData::Parsed(v) => v,
        _ => panic!("expected a parsed chunk"),
    };
    assert_eq!(chunk_content(&c2), "llo");
    log.push(c2);

    let done = t.transform(SseData::DoneMarker);
    assert!(matches!(done, SseData::DoneMarker));

    let body = log.finalize().unwrap();
    let choices = body.get("choices").unwrap().as_arr().unwrap();
    let message = choices[0].get("message").unwrap();
    let content = message.get("content").unwrap().as_str().unwrap();
    assert_eq!(content.as_str(), "✦ hello");
    assert_eq!(message.get("role").unwrap().as_str().unwrap().as_str(), "assistant");
}

#[test]
fn prefix_skips_empty_content() {
    let mut t = StreamTransform::new(">> ".to_string(), true);
    let out = t.transform(SseData::Parsed(chat_chunk("")));
    let c = match out {
        SseData::Parsed(v) => v,
        _ => panic!("expected a parsed chunk"),
    };
    assert_eq!(chunk_content(&c), "");
    // The splice is still pending, so the next non-empty chunk gets it.
    let out = t.transform(SseData::Parsed(chat_chunk("hi")));
    let c = match out {
        SseData::Parsed(v) => v,
        _ => panic!("expected a parsed chunk"),
    };
    assert_eq!(chunk_content(&c), ">> hi");
}

#[test]
fn empty_prefix_never_splices() {
    let mut t = StreamTransform::new(String::new(), true);
    let out = t.transform(SseData::Parsed(chat_chunk("hello")));
    let c = match out {
        SseData::Parsed(v) => v,
        _ => panic!("expected a parsed chunk"),
    };
    assert_eq!(chunk_content(&c), "hello");
}

#[test]
fn completion_text_location() {
    let chunk = obj(vec![(
        "choices",
        Json::Arr(vec![obj(vec![("text", text("word"))])]),
    )]);
    let mut t = StreamTransform::new("* ".to_string(), false);
    let out = t.transform(SseData::Parsed(chunk));
    let c = match out {
        SseData::Parsed(v) => v,
        _ => panic!("expected a parsed chunk"),
    };
    let choices = c.get("choices").unwrap().as_arr().unwrap();
    assert_eq!(choices[0].get("text").unwrap().as_str().unwrap().as_str(), "* word");
}

#[test]
fn accumulator_merges_tool_calls_by_index() {
    let mut acc = StreamAccumulator::new();
    let first = obj(vec![(
        "tool_calls",
        Json::Arr(vec![obj(vec![
            ("index", Json::UInt(0)),
            ("id", text("call_1")),
            ("type", text("function")),
            (
                "function",
                obj(vec![("name", text("get_weather")), ("arguments", text("{\"ci"))]),
            ),
        ])]),
    )]);
    let second = obj(vec![(
        "tool_calls",
        Json::Arr(vec![obj(vec![
            ("index", Json::UInt(0)),
            ("id", text("overwritten?")),
            ("function", obj(vec![("arguments", text("ty\":1}"))])),
        ])]),
    )]);
    acc.update(&first);
    acc.update(&second);
    assert_eq!(acc.tool_calls.len(), 1);
    let call = &acc.tool_calls[0];
    assert_eq!(call.index, 0);
    // The id arrives once and is never overwritten.
    assert_eq!(call.id.as_deref(), Some("call_1"));
    assert_eq!(call.name.as_deref(), Some("get_weather"));
    assert_eq!(call.arguments, "{\"city\":1}");
}

#[test]
fn accumulator_orders_tool_calls_by_index() {
    let mut acc = StreamAccumulator::new();
    let chunk = obj(vec![(
        "tool_calls",
        Json::Arr(vec![
            obj(vec![("index", Json::UInt(2)), ("id", text("b"))]),
            obj(vec![("index", Json::UInt(1)), ("id", text("a"))]),
        ]),
    )]);
    acc.update(&chunk);
    assert_eq!(acc.tool_calls.len(), 2);
    assert_eq!(acc.tool_calls[0].index, 1);
    assert_eq!(acc.tool_calls[1].index, 2);
}

#[test]
fn usage_and_finish_reason_come_from_the_last_carrier() {
    let mut log = StreamLog::new(true);
    log.push(chat_chunk("x"));
    let last = obj(vec![
        (
            "choices",
            Json::Arr(vec![obj(vec![
                ("delta", obj(vec![])),
                ("finish_reason", text("stop")),
            ])]),
        ),
        (
            "usage",
            obj(vec![
                ("prompt_tokens", Json::UInt(3)),
                ("completion_tokens", Json::UInt(5)),
            ]),
        ),
    ]);
    log.push(last);
    let body = log.finalize().unwrap();
    let usage = body.get("usage").unwrap();
    assert_eq!(usage.get("completion_tokens").unwrap().as_u64(), Some(5));
    let choices = body.get("choices").unwrap().as_arr().unwrap();
    assert_eq!(
        choices[0].get("finish_reason").unwrap().as_str().unwrap().as_str(),
        "stop"
    );
}

#[test]
fn finalize_without_chunks_is_none() {
    let log = StreamLog::new(true);
    assert!(log.finalize().is_none());
}

#[test]
fn completion_stream_accumulates_text() {
    let mut log = StreamLog::new(false);
    let chunk = |t: &str| {
        obj(vec![(
            "choices",
            Json::Arr(vec![obj(vec![("text", text(t))])]),
        )])
    };
    log.push(chunk("foo"));
    log.push(chunk("bar"));
    let body = log.finalize().unwrap();
    let choices = body.get("choices").unwrap().as_arr().unwrap();
    assert_eq!(choices[0].get("text").unwrap().as_str().unwrap().as_str(), "foobar");
}
