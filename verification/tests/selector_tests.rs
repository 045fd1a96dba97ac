use gpt_api::config::{ClientConfig, ModelMatch};
use gpt_api::selector::{select_clients, select_clients_by_weight, RoutingKey};

fn create_test_client(name: &str, priority: u32) -> ClientConfig {
    ClientConfig {
        name: name.to_string(),
        base_url: "http://example.com".to_string(),
        api_key: None,
        model_match: ModelMatch {
            match_type: "exact".to_string(),
            value: vec!["test-model".to_string()],
        },
        priority: Some(priority),
        fallback: None,
        special_prefix: None,
        stop: None,
        max_tokens: None,
    }
}

#[test]
fn test_select_clients_by_weight() {
    let clients = vec![
        create_test_client("client1", 1),
        create_test_client("client2", 3),
        create_test_client("client3", 2),
    ];

    let selected = select_clients_by_weight(clients, vec![17, 99, 54]);

    assert_eq!(selected.len(), 3);
}

#[test]
fn test_select_clients_by_weight_empty() {
    let clients: Vec<ClientConfig> = vec![];
    let selected = select_clients_by_weight(clients, vec![]);
    assert!(selected.is_empty());
}

#[test]
fn weight_order_follows_keys_descending() {
    let clients = vec![
        create_test_client("low", 1),
        create_test_client("high", 1),
        create_test_client("mid", 1),
    ];
    let selected = select_clients_by_weight(clients, vec![10, 90, 50]);
    let names: Vec<&str> = selected.iter().map(|c| c.name.as_str()).collect();
    assert_eq!(names, vec!["high", "mid", "low"]);
}

#[test]
fn zero_priority_sinks_to_bottom() {
    let clients = vec![
        create_test_client("idle", 0),
        create_test_client("busy", 5),
    ];
    // The zero-priority provider competes with the lowest key even when
    // its drawn key is the largest.
    let selected = select_clients_by_weight(clients, vec![u64::MAX, 1]);
    assert_eq!(selected[0].name, "busy");
    assert_eq!(selected[1].name, "idle");
}

#[test]
fn equal_keys_keep_pool_order() {
    let clients = vec![
        create_test_client("first", 2),
        create_test_client("second", 2),
    ];
    let selected = select_clients_by_weight(clients, vec![7, 7]);
    assert_eq!(selected[0].name, "first");
    assert_eq!(selected[1].name, "second");
}

#[test]
fn affinity_selection_is_deterministic() {
    let make_pool = || {
        vec![
            create_test_client("p", 10),
            create_test_client("q", 10),
        ]
    };
    let keys = vec![RoutingKey {
        content: "context-A".to_string(),
        weight: 100,
    }];
    let first = select_clients(make_pool(), &keys);
    let second = select_clients(make_pool(), &keys);
    let names1: Vec<&str> = first.iter().map(|c| c.name.as_str()).collect();
    let names2: Vec<&str> = second.iter().map(|c| c.name.as_str()).collect();
    assert_eq!(names1, names2);

    let other_keys = vec![RoutingKey {
        content: "context-B".to_string(),
        weight: 100,
    }];
    let third = select_clients(make_pool(), &other_keys);
    let fourth = select_clients(make_pool(), &other_keys);
    let names3: Vec<&str> = third.iter().map(|c| c.name.as_str()).collect();
    let names4: Vec<&str> = fourth.iter().map(|c| c.name.as_str()).collect();
    assert_eq!(names3, names4);
}

#[test]
fn affinity_ties_break_by_name() {
    // With no routing keys every provider holds zero points, so the
    // order is purely the name tie-break.
    let clients = vec![
        create_test_client("zeta", 3),
        create_test_client("alpha", 3),
        create_test_client("mike", 3),
    ];
    let selected = select_clients(clients, &vec![]);
    let names: Vec<&str> = selected.iter().map(|c| c.name.as_str()).collect();
    assert_eq!(names, vec!["alpha", "mike", "zeta"]);
}
