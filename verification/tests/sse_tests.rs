use gpt_api::sse::SseParser;

fn feed_str(p: &mut SseParser, s: &str) -> Vec<String> {
    p.feed(&s.as_bytes().to_vec())
        .into_iter()
        .map(|e| String::from_utf8(e).unwrap())
        .collect()
}

#[test]
fn single_event() {
    let mut p = SseParser::new();
    let events = feed_str(&mut p, "data: {\"x\":1}\n\n");
    assert_eq!(events, vec!["{\"x\":1}".to_string()]);
}

#[test]
fn split_across_chunks() {
    let mut p = SseParser::new();
    assert!(feed_str(&mut p, "data: par").is_empty());
    assert!(feed_str(&mut p, "tial").is_empty());
    let events = feed_str(&mut p, "\n\ndata: [DONE]\n\n");
    assert_eq!(
        events,
        vec!["partial".to_string(), "[DONE]".to_string()]
    );
}

#[test]
fn multiple_events_in_one_chunk() {
    let mut p = SseParser::new();
    let events = feed_str(&mut p, "data: a\n\ndata: b\n\ndata: c");
    assert_eq!(events, vec!["a".to_string(), "b".to_string()]);
    let events = feed_str(&mut p, "\n\n");
    assert_eq!(events, vec!["c".to_string()]);
}

#[test]
fn data_lines_join_with_newline() {
    let mut p = SseParser::new();
    let events = feed_str(&mut p, "data: one\ndata: two\n\n");
    assert_eq!(events, vec!["one\ntwo".to_string()]);
}

#[test]
fn non_data_lines_are_ignored() {
    let mut p = SseParser::new();
    let events = feed_str(&mut p, "event: message\nid: 7\ndata: payload\n\n");
    assert_eq!(events, vec!["payload".to_string()]);
}

#[test]
fn only_one_leading_space_is_dropped() {
    let mut p = SseParser::new();
    let events = feed_str(&mut p, "data:bare\n\ndata:  spaced\n\n");
    assert_eq!(events, vec!["bare".to_string(), " spaced".to_string()]);
}

#[test]
fn event_without_data_lines_is_empty() {
    let mut p = SseParser::new();
    let events = feed_str(&mut p, ": comment only\n\n");
    assert_eq!(events, vec!["".to_string()]);
}
