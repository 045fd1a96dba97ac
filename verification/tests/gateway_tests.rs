use gpt_api::errors::{extract_error_msg, truncate_json, AppError, TransportKind};
use gpt_api::gateway::{build_upstream_url, clean_ip, get_api_key, get_client_ip};
use gpt_api::json::Json;
use gpt_api::matcher::{client_matches, find_matching_clients};
use gpt_api::config::{ClientConfig, Config, ModelMatch};

fn obj(pairs: Vec<(&str, Json)>) -> Json {
    Json::Obj(pairs.into_iter().map(|(k, v)| (k.to_string(), v)).collect())
}

fn text(s: &str) -> Json {
    Json::Text(s.to_string())
}

fn client(name: &str, match_type: &str, values: &[&str]) -> ClientConfig {
    ClientConfig {
        name: name.to_string(),
        base_url: "http://upstream".to_string(),
        api_key: None,
        model_match: ModelMatch {
            match_type: match_type.to_string(),
            value: values.iter().map(|v| v.to_string()).collect(),
        },
        priority: Some(1),
        fallback: None,
        special_prefix: None,
        stop: None,
        max_tokens: None,
    }
}

#[test]
fn url_strips_trailing_slashes() {
    assert_eq!(
        build_upstream_url("http://host/v1/", "chat/completions"),
        "http://host/v1/chat/completions"
    );
    assert_eq!(
        build_upstream_url("http://host/v1", "embeddings"),
        "http://host/v1/embeddings"
    );
}

#[test]
fn api_key_prefers_non_empty_config_key() {
    let cfg = Some("sk-provider".to_string());
    assert_eq!(
        get_api_key(&cfg, Some("Bearer sk-user")),
        Some("sk-provider".to_string())
    );
}

#[test]
fn api_key_falls_back_to_bearer_token() {
    assert_eq!(
        get_api_key(&None, Some("Bearer sk-user")),
        Some("sk-user".to_string())
    );
    assert_eq!(
        get_api_key(&Some(String::new()), Some("Bearer sk-user")),
        Some("sk-user".to_string())
    );
    assert_eq!(get_api_key(&None, None), None);
    assert_eq!(get_api_key(&None, Some("Bearer ")), None);
}

#[test]
fn client_ip_prefers_forwarded_for() {
    assert_eq!(
        get_client_ip(Some(" 10.0.0.1, 10.0.0.2"), Some("9.9.9.9"), Some("8.8.8.8")),
        "10.0.0.1"
    );
    assert_eq!(get_client_ip(None, Some(" 9.9.9.9 "), None), "9.9.9.9");
    assert_eq!(get_client_ip(None, None, Some("::ffff:1.2.3.4")), "1.2.3.4");
    assert_eq!(get_client_ip(None, None, None), "unknown");
}

#[test]
fn clean_ip_strips_mapped_prefix() {
    assert_eq!(clean_ip("::ffff:127.0.0.1"), "127.0.0.1");
    assert_eq!(clean_ip("2001:db8::1"), "2001:db8::1");
}

#[test]
fn matcher_exact_and_keyword() {
    let exact = client("a", "exact", &["gpt-x"]);
    assert!(client_matches(&exact, "gpt-x"));
    assert!(!client_matches(&exact, "gpt-x-large"));

    let keyword = client("b", "keyword", &["gpt"]);
    assert!(client_matches(&keyword, "my-gpt-4"));
    assert!(!client_matches(&keyword, "llama"));

    let unknown = client("c", "regex", &["gpt"]);
    assert!(!client_matches(&unknown, "gpt"));
}

#[test]
fn matcher_keeps_pool_order() {
    let config = Config {
        check_config: None,
        openai_clients: vec![
            client("first", "exact", &["m"]),
            client("skip", "exact", &["other"]),
            client("second", "keyword", &["m"]),
        ],
    };
    let matched = find_matching_clients(&config, "m");
    let names: Vec<&str> = matched.iter().map(|c| c.name.as_str()).collect();
    assert_eq!(names, vec!["first", "second"]);
}

#[test]
fn error_parts_not_found() {
    let e = AppError::ClientNotFound("gpt-z".to_string());
    let (status, body, message) = e.to_response_parts();
    assert_eq!(status, 422);
    assert_eq!(message, "The model `gpt-z` does not exist.");
    assert_eq!(
        body.get("error").unwrap().as_str().unwrap().as_str(),
        "The model `gpt-z` does not exist."
    );
    assert_eq!(
        body.get("error_type").unwrap().as_str().unwrap().as_str(),
        "Input Validation Error"
    );
}

#[test]
fn error_parts_transport() {
    let (status, _, message) =
        AppError::Upstream(TransportKind::Timeout, "deadline".to_string()).to_response_parts();
    assert_eq!(status, 504);
    assert_eq!(message, "Request to upstream timed out: deadline");

    let (status, body, _) =
        AppError::Upstream(TransportKind::Connect, "refused".to_string()).to_response_parts();
    assert_eq!(status, 502);
    assert_eq!(
        body.get("error_type").unwrap().as_str().unwrap().as_str(),
        "connection_error"
    );

    let (status, _, _) =
        AppError::Upstream(TransportKind::Status(503), "bad".to_string()).to_response_parts();
    assert_eq!(status, 503);

    let (status, body, _) =
        AppError::InternalServerError("boom".to_string()).to_response_parts();
    assert_eq!(status, 500);
    assert_eq!(
        body.get("error_type").unwrap().as_str().unwrap().as_str(),
        "internal_error"
    );

    let (status, body, message) =
        AppError::Upstream(TransportKind::Other, "io".to_string()).to_response_parts();
    assert_eq!(status, 500);
    assert_eq!(message, "External request failed: io");
    assert_eq!(
        body.get("error_type").unwrap().as_str().unwrap().as_str(),
        "internal_error"
    );

    let (status, _, message) =
        AppError::DatabaseError("locked".to_string()).to_response_parts();
    assert_eq!(status, 500);
    assert_eq!(message, "Database operation failed: locked");

    let (status, body, message) =
        AppError::UpstreamError("bad gateway".to_string()).to_response_parts();
    assert_eq!(status, 502);
    assert_eq!(message, "bad gateway");
    assert_eq!(
        body.get("error_type").unwrap().as_str().unwrap().as_str(),
        "upstream_error"
    );

    let (status, body, _) =
        AppError::InvalidHeader("no auth".to_string()).to_response_parts();
    assert_eq!(status, 400);
    assert_eq!(
        body.get("error_type").unwrap().as_str().unwrap().as_str(),
        "invalid_request_error"
    );

    let (status, body, message) = AppError::ApiError(
        418,
        "teapot".to_string(),
        "upstream_error".to_string(),
    )
    .to_response_parts();
    assert_eq!(status, 418);
    assert_eq!(message, "teapot");
    assert_eq!(body.get("error").unwrap().as_str().unwrap().as_str(), "teapot");
}

#[test]
fn exhaustion_message_names_the_tried_providers() {
    let tried = vec!["a".to_string(), "b".to_string()];
    assert_eq!(
        gpt_api::errors::exhaustion_message("gpt-x", &tried),
        "All upstream providers failed for model 'gpt-x'. Tried clients: [\"a\", \"b\"]"
    );
    assert_eq!(
        gpt_api::errors::exhaustion_message("gpt-x", &vec![]),
        "All upstream providers failed for model 'gpt-x'. Tried clients: []"
    );
}

#[test]
fn error_message_extraction() {
    let nested = obj(vec![("error", obj(vec![("message", text("bad"))]))]);
    assert_eq!(extract_error_msg(&nested), Some("bad".to_string()));

    let flat = obj(vec![("error", text("flat bad"))]);
    assert_eq!(extract_error_msg(&flat), Some("flat bad".to_string()));

    let opaque = obj(vec![("status", text("oops"))]);
    assert_eq!(extract_error_msg(&opaque), None);
}

#[test]
fn truncate_elides_long_strings_and_arrays() {
    let long = "x".repeat(501);
    let t = truncate_json(&text(&long));
    let s = t.as_str().unwrap().clone();
    assert_eq!(s.len(), 500 + "...[TRUNCATED]".len());
    assert!(s.ends_with("...[TRUNCATED]"));

    let short = truncate_json(&text("short"));
    assert_eq!(short.as_str().unwrap().as_str(), "short");

    let arr = Json::Arr((0..12).map(|i| Json::UInt(i)).collect());
    let t = truncate_json(&arr);
    let items = t.as_arr().unwrap();
    assert_eq!(items.len(), 11);
    assert_eq!(
        items[10].as_str().unwrap().as_str(),
        "...[TRUNCATED: 12 items]"
    );
    assert_eq!(items[0].as_u64(), Some(0));
}
