use gpt_api::policy::{adjust_max_tokens, merge_stop_words};

fn words(ws: &[&str]) -> Vec<String> {
    ws.iter().map(|w| w.to_string()).collect()
}

#[test]
fn merge_keeps_first_occurrence_order() {
    let provider = words(&["a", "b"]);
    let request = words(&["b", "c", "a", "d"]);
    let merged = merge_stop_words(Some(&provider), Some(request)).unwrap();
    assert_eq!(merged, words(&["a", "b", "c", "d"]));
}

#[test]
fn merge_with_only_provider_words() {
    let provider = words(&["x", "y", "x"]);
    let merged = merge_stop_words(Some(&provider), None).unwrap();
    assert_eq!(merged, words(&["x", "y"]));
}

#[test]
fn merge_with_only_request_words() {
    let merged = merge_stop_words(None, Some(words(&["s", "s", "t"]))).unwrap();
    assert_eq!(merged, words(&["s", "t"]));
}

#[test]
fn merge_with_neither_is_none() {
    assert!(merge_stop_words(None, None).is_none());
}

#[test]
fn max_tokens_clamps_to_provider_cap() {
    assert_eq!(adjust_max_tokens(Some(100), Some(500)), Some(100));
    assert_eq!(adjust_max_tokens(Some(100), Some(50)), Some(50));
    assert_eq!(adjust_max_tokens(Some(100), Some(100)), Some(100));
}

#[test]
fn max_tokens_defers_to_present_side() {
    assert_eq!(adjust_max_tokens(Some(64), None), Some(64));
    assert_eq!(adjust_max_tokens(None, Some(32)), Some(32));
    assert_eq!(adjust_max_tokens(None, None), None);
}
