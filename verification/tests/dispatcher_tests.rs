use gpt_api::config::{ClientConfig, ModelMatch};
use gpt_api::dispatcher::{classify_status, AttemptClass, Dispatcher, Step};

fn provider(name: &str, fallback: Option<&str>) -> ClientConfig {
    ClientConfig {
        name: name.to_string(),
        base_url: format!("http://{}.example.com", name),
        api_key: None,
        model_match: ModelMatch {
            match_type: "exact".to_string(),
            value: vec!["gpt-x".to_string()],
        },
        priority: Some(1),
        fallback: fallback.map(|s| s.to_string()),
        special_prefix: None,
        stop: None,
        max_tokens: None,
    }
}

fn tried_names(d: &Dispatcher) -> Vec<String> {
    d.tried_names().clone()
}

#[test]
fn happy_non_stream_chat() {
    // One provider answers 200: a single upstream call, returned as is.
    let mut d = Dispatcher::new("gpt-x".to_string());
    let step = d.resolve(vec![provider("a", None)]);
    assert!(matches!(step, Step::AttemptPrimary));
    let step = d.report_primary(classify_status(200));
    assert!(matches!(step, Step::ReturnCurrent));
    assert_eq!(tried_names(&d), vec!["a".to_string()]);
}

#[test]
fn server_error_races_rest_then_success() {
    // A answers 502, B and C are raced, C completes first with 200.
    let mut d = Dispatcher::new("gpt-x".to_string());
    let step = d.resolve(vec![
        provider("a", None),
        provider("b", None),
        provider("c", None),
    ]);
    assert!(matches!(step, Step::AttemptPrimary));
    let step = d.report_primary(classify_status(502));
    assert!(matches!(step, Step::RaceRest));
    let step = d.report_raced(2, classify_status(200));
    assert!(matches!(step, Step::ReturnCurrent));
    assert_eq!(tried_names(&d), vec!["a".to_string(), "c".to_string()]);
}

#[test]
fn exhaustion_then_cross_model_fallback() {
    // A (fallback gpt-y) answers 500; the machine resolves gpt-y and B
    // answers 200.
    let mut d = Dispatcher::new("gpt-x".to_string());
    let step = d.resolve(vec![provider("a", Some("gpt-y"))]);
    assert!(matches!(step, Step::AttemptPrimary));
    let step = d.report_primary(classify_status(500));
    assert!(matches!(step, Step::Resolve));
    assert_eq!(d.model().as_str(), "gpt-y");
    let mut b = provider("b", None);
    b.model_match.value = vec!["gpt-y".to_string()];
    let step = d.resolve(vec![b]);
    assert!(matches!(step, Step::AttemptPrimary));
    let step = d.report_primary(classify_status(200));
    assert!(matches!(step, Step::ReturnCurrent));
    assert_eq!(tried_names(&d), vec!["a".to_string(), "b".to_string()]);
}

#[test]
fn client_error_passes_through_without_retry() {
    // A answers 422: exactly one upstream call, B never runs.
    let mut d = Dispatcher::new("gpt-x".to_string());
    let step = d.resolve(vec![provider("a", None), provider("b", None)]);
    assert!(matches!(step, Step::AttemptPrimary));
    let step = d.report_primary(classify_status(422));
    assert!(matches!(step, Step::ReturnCurrent));
    assert_eq!(tried_names(&d), vec!["a".to_string()]);
}

#[test]
fn raced_client_error_ends_the_race() {
    let mut d = Dispatcher::new("gpt-x".to_string());
    d.resolve(vec![provider("a", None), provider("b", None), provider("c", None)]);
    d.report_primary(classify_status(503));
    let step = d.report_raced(1, classify_status(404));
    assert!(matches!(step, Step::ReturnCurrent));
    assert_eq!(tried_names(&d), vec!["a".to_string(), "b".to_string()]);
}

#[test]
fn whole_group_fails_returns_last() {
    let mut d = Dispatcher::new("gpt-x".to_string());
    d.resolve(vec![provider("a", None), provider("b", None)]);
    let step = d.report_primary(classify_status(500));
    assert!(matches!(step, Step::RaceRest));
    let step = d.report_raced(1, classify_status(500));
    assert!(matches!(step, Step::ReturnLast));
}

#[test]
fn no_provider_matches_fails_not_found() {
    let mut d = Dispatcher::new("missing-model".to_string());
    let step = d.resolve(vec![]);
    assert!(matches!(step, Step::FailNotFound));
}

#[test]
fn other_status_is_skipped_without_being_held() {
    // A 3xx answer is neither returned nor held; with nothing held the
    // dispatch ends exhausted.
    let mut d = Dispatcher::new("gpt-x".to_string());
    d.resolve(vec![provider("a", None)]);
    let step = d.report_primary(classify_status(301));
    assert!(matches!(step, Step::FailExhausted));
}

#[test]
fn status_classes() {
    assert!(matches!(classify_status(200), AttemptClass::Success));
    assert!(matches!(classify_status(299), AttemptClass::Success));
    assert!(matches!(classify_status(404), AttemptClass::ClientError));
    assert!(matches!(classify_status(499), AttemptClass::ClientError));
    assert!(matches!(classify_status(500), AttemptClass::ServerError));
    assert!(matches!(classify_status(599), AttemptClass::ServerError));
    assert!(matches!(classify_status(302), AttemptClass::OtherStatus));
    assert!(matches!(classify_status(101), AttemptClass::OtherStatus));
}

#[test]
fn fallback_depth_is_capped() {
    // A provider whose fallback names its own model again loops through
    // the cap and then exhausts instead of spinning forever.
    let mut d = Dispatcher::new("gpt-x".to_string());
    let mut hops = 0;
    loop {
        let step = d.resolve(vec![provider("a", Some("gpt-x"))]);
        assert!(matches!(step, Step::AttemptPrimary));
        match d.report_primary(classify_status(500)) {
            Step::Resolve => {
                hops += 1;
                assert!(hops <= 8);
            }
            Step::ReturnLast => break,
            other => panic!("unexpected step {:?}", other),
        }
    }
    assert_eq!(hops, 8);
}
