use ad_agent_config::error::AdAgentConfigError;
use ad_agent_config::fetch::{
    config_endpoint, next_fetch_action, overrides_from_body, split_server_config, FetchAction,
    FetchEvent, ServerConfigOverrides, DEFAULT_CONFIG_ENDPOINT, OVERRIDE_ENV,
};
use ad_agent_config::flatten::flatten_toml_table;
use ad_agent_config::layers::{
    with_fetched_layers, with_server_config_layers, ConfigLayerEntry, ConfigLayerSource,
    ConfigLayerStack,
};
use ad_agent_config::toml_value::{
    parse_toml, TomlDate, TomlDatetime, TomlOffset, TomlTime, TomlValue,
};
use ad_agent_config::unflatten::build_cli_overrides_layer;

fn text(value: &str) -> TomlValue {
    TomlValue::String(value.to_string())
}

fn entry(key: &str, value: TomlValue) -> (String, TomlValue) {
    (key.to_string(), value)
}

fn document(source: &str) -> TomlValue {
    TomlValue::Table(parse_toml(source).expect("fixture should parse as TOML"))
}

/// Runs a fetch against a login with `token` and a server that answers with `status` and `body`.
/// Returns what was sent, if anything was, and the outcome.
fn run_fetch(
    url: &str,
    token: Option<Option<&str>>,
    status: u16,
    body: &str,
) -> (Option<(String, String)>, Result<ServerConfigOverrides, AdAgentConfigError>) {
    let mut sent = None;
    let mut action = next_fetch_action(
        url,
        FetchEvent::Auth {
            present: token.is_some(),
        },
    );
    loop {
        let event = match action {
            FetchAction::ReadToken => FetchEvent::Token(token.unwrap().map(str::to_string)),
            FetchAction::Send { url, bearer_token } => {
                sent = Some((url, bearer_token));
                FetchEvent::Response(Ok(status))
            }
            FetchAction::CheckStatus => FetchEvent::StatusCheck(if status >= 400 {
                Err(format!("HTTP status {}", status))
            } else {
                Ok(())
            }),
            FetchAction::ReadBody => FetchEvent::Body(Ok(body.to_string())),
            FetchAction::Finish(result) => return (sent, result),
        };
        action = next_fetch_action(url, event);
    }
}

#[test]
fn parses_toml_response_into_dotted_overrides() {
    let (sent, result) = run_fetch(
        "http://server/agent/config",
        Some(Some("test-token")),
        200,
        "model = \"qwen3.8-max\"\n",
    );
    assert_eq!(
        sent,
        Some(("http://server/agent/config".to_string(), "test-token".to_string()))
    );
    assert_eq!(
        result.expect("request should succeed"),
        ServerConfigOverrides {
            enforced: vec![entry("model", text("qwen3.8-max"))],
            defaults: Vec::new(),
        }
    );
}

#[test]
fn splits_defaults_table_from_enforced_entries() {
    let (_, result) = run_fetch(
        "http://server/agent/config",
        Some(Some("test-token")),
        200,
        r#"
                model_provider = "cowork"

                [model_providers.cowork]
                base_url = "https://example.invalid/llm/v1"

                [defaults]
                model = "qwen3.8-max"
                model_reasoning_effort = "high"
                "#,
    );
    let mut overrides = result.expect("request should succeed");
    overrides.enforced.sort_by(|a, b| a.0.cmp(&b.0));
    overrides.defaults.sort_by(|a, b| a.0.cmp(&b.0));
    assert_eq!(
        overrides,
        ServerConfigOverrides {
            enforced: vec![
                entry("model_provider", text("cowork")),
                entry(
                    "model_providers.cowork.base_url",
                    text("https://example.invalid/llm/v1")
                ),
            ],
            defaults: vec![
                entry("model", text("qwen3.8-max")),
                entry("model_reasoning_effort", text("high")),
            ],
        }
    );
}

#[test]
fn rejects_non_table_defaults() {
    let (_, result) = run_fetch(
        "http://server/agent/config",
        Some(Some("test-token")),
        200,
        "defaults = \"qwen3.8-max\"\n",
    );
    let err = result.expect_err("non-table defaults should be an error");
    assert!(matches!(err, AdAgentConfigError::Unavailable(_)));
    assert_eq!(
        err,
        AdAgentConfigError::Unavailable("`defaults` in server config must be a table".to_string())
    );
}

#[test]
fn maps_401_to_not_logged_in() {
    let (_, result) = run_fetch(
        "http://server/agent/config",
        Some(Some("expired-token")),
        401,
        "",
    );
    let err = result.expect_err("401 should be an error");
    assert!(matches!(err, AdAgentConfigError::NotLoggedIn));
}

#[test]
fn maps_5xx_to_unavailable() {
    let (_, result) = run_fetch(
        "http://server/agent/config",
        Some(Some("test-token")),
        503,
        "",
    );
    let err = result.expect_err("503 should be an error");
    assert!(matches!(err, AdAgentConfigError::Unavailable(_)));
    assert_eq!(err, AdAgentConfigError::Unavailable("HTTP status 503".to_string()));
}

#[test]
fn converts_into_an_io_error_for_build_inner_propagation() {
    let io_err: std::io::Error = AdAgentConfigError::NotLoggedIn.into();
    assert!(io_err.to_string().contains("not logged in"));
}

#[test]
fn io_error_carries_the_whole_message() {
    let io_err: std::io::Error = AdAgentConfigError::Unavailable("timed out".to_string()).into();
    assert_eq!(
        io_err.to_string(),
        "failed to fetch model config from server: timed out"
    );
    assert_eq!(io_err.kind(), std::io::ErrorKind::Other);
    assert_eq!(
        AdAgentConfigError::NotLoggedIn.message(),
        "not logged in; run `codex login`"
    );
}

#[test]
fn maps_malformed_toml_body_to_unavailable() {
    let (_, result) = run_fetch(
        "http://server/agent/config",
        Some(Some("test-token")),
        200,
        "not = [valid toml",
    );
    let err = result.expect_err("malformed TOML should be an error");
    assert!(matches!(err, AdAgentConfigError::Unavailable(_)));
    let expected = toml::from_str::<toml::Table>("not = [valid toml")
        .unwrap_err()
        .to_string();
    assert_eq!(err, AdAgentConfigError::Unavailable(expected));
}

#[test]
fn returns_not_logged_in_when_no_auth_present() {
    let (sent, result) = run_fetch("http://unused.invalid", None, 200, "");
    let err = result.expect_err("should fail without auth");
    assert!(matches!(err, AdAgentConfigError::NotLoggedIn));
    assert_eq!(sent, None);
}

#[test]
fn unreadable_token_means_not_logged_in() {
    let (sent, result) = run_fetch("http://unused.invalid", Some(None), 200, "");
    assert_eq!(result, Err(AdAgentConfigError::NotLoggedIn));
    assert_eq!(sent, None);
}

#[test]
fn fetches_and_flattens_overrides_using_the_cached_auth_token() {
    let (sent, result) = run_fetch(
        "http://server/agent/config",
        Some(Some("cached-api-key")),
        200,
        "model = \"qwen3.8-max\"\n",
    );
    assert_eq!(
        sent,
        Some((
            "http://server/agent/config".to_string(),
            "cached-api-key".to_string()
        ))
    );
    assert_eq!(
        result.expect("request should succeed"),
        ServerConfigOverrides {
            enforced: vec![entry("model", text("qwen3.8-max"))],
            defaults: Vec::new(),
        }
    );
}

#[test]
fn failures_on_the_way_are_passed_on() {
    let reason = || "connection refused".to_string();
    for event in [
        FetchEvent::Response(Err(reason())),
        FetchEvent::StatusCheck(Err(reason())),
        FetchEvent::Body(Err(reason())),
    ] {
        match next_fetch_action("http://server", event) {
            FetchAction::Finish(result) => {
                assert_eq!(result, Err(AdAgentConfigError::Unavailable(reason())))
            }
            other => panic!("unexpected {:?}", other),
        }
    }
}

#[test]
fn a_redirect_status_goes_on_to_the_status_check() {
    assert!(matches!(
        next_fetch_action("http://server", FetchEvent::Response(Ok(304))),
        FetchAction::CheckStatus
    ));
}

#[test]
fn endpoint_comes_from_the_environment_if_it_is_set() {
    assert_eq!(OVERRIDE_ENV, "AD_AGENT_CONFIG_URL");
    assert_eq!(config_endpoint(None), DEFAULT_CONFIG_ENDPOINT);
    assert_eq!(config_endpoint(None), "https://quchenyang.com/agent/config");
    assert_eq!(
        config_endpoint(Some("http://localhost:1".to_string())),
        "http://localhost:1"
    );
}

#[test]
fn flattens_nested_tables_into_dotted_paths() {
    let doc = document(
        r#"
            model = "qwen3.8-max"
            model_provider = "cowork"

            [model_providers.cowork]
            name = "Cowork"
            base_url = "https://api.quchenyang.com/llm/v1"
            requires_openai_auth = true
            "#,
    );

    let mut flattened = flatten_toml_table(&doc);
    flattened.sort_by(|a, b| a.0.cmp(&b.0));

    assert_eq!(
        flattened,
        vec![
            entry("model", text("qwen3.8-max")),
            entry("model_provider", text("cowork")),
            entry(
                "model_providers.cowork.base_url",
                text("https://api.quchenyang.com/llm/v1")
            ),
            entry("model_providers.cowork.name", text("Cowork")),
            entry(
                "model_providers.cowork.requires_openai_auth",
                TomlValue::Boolean(true)
            ),
        ]
    );
}

#[test]
fn treats_arrays_as_leaf_values_not_nested_paths() {
    let doc = document("supported_reasoning_levels = []\ntags = [\"a\", \"b\"]");

    let mut flattened = flatten_toml_table(&doc);
    flattened.sort_by(|a, b| a.0.cmp(&b.0));

    assert_eq!(
        flattened,
        vec![
            entry("supported_reasoning_levels", TomlValue::Array(vec![])),
            entry("tags", TomlValue::Array(vec![text("a"), text("b")])),
        ]
    );
}

#[test]
fn empty_document_flattens_to_no_entries() {
    let doc = document("");
    assert_eq!(flatten_toml_table(&doc), Vec::new());
}

#[test]
fn every_kind_of_toml_value_is_read() {
    let entries = parse_toml(
        "a = 'x'\nb = -7\nc = 1.5\nd = false\ne = 1979-05-27T07:32:00Z\nf = [1]\n[g]\nh = 2\n",
    )
    .unwrap();
    assert_eq!(
        entries,
        vec![
            entry("a", text("x")),
            entry("b", TomlValue::Integer(-7)),
            entry("c", TomlValue::Float("1.5".to_string())),
            entry("d", TomlValue::Boolean(false)),
            entry(
                "e",
                TomlValue::Datetime(TomlDatetime {
                    date: Some(TomlDate {
                        year: 1979,
                        month: 5,
                        day: 27,
                    }),
                    time: Some(TomlTime {
                        hour: 7,
                        minute: 32,
                        second: 0,
                        nanosecond: 0,
                    }),
                    offset: Some(TomlOffset::Z),
                })
            ),
            entry("f", TomlValue::Array(vec![TomlValue::Integer(1)])),
            entry("g", TomlValue::Table(vec![entry("h", TomlValue::Integer(2))])),
        ]
    );
}

#[test]
fn floats_are_kept_as_toml_writes_them() {
    let entries = parse_toml("a = 1e3\nb = -0.0\nc = inf\nd = -inf\ne = nan\nf = -nan\n").unwrap();
    let float = |text: &str| TomlValue::Float(text.to_string());
    assert_eq!(
        entries,
        vec![
            entry("a", float("1000.0")),
            entry("b", float("-0.0")),
            entry("c", float("inf")),
            entry("d", float("-inf")),
            entry("e", float("nan")),
            entry("f", float("-nan")),
        ]
    );
}

#[test]
fn date_times_are_kept_part_by_part() {
    let entries =
        parse_toml("a = 07:32:10.5\nb = 2024-02-29\nc = 2024-02-29T00:00:01-01:30\n").unwrap();
    let leap_day = Some(TomlDate {
        year: 2024,
        month: 2,
        day: 29,
    });
    assert_eq!(
        entries,
        vec![
            entry(
                "a",
                TomlValue::Datetime(TomlDatetime {
                    date: None,
                    time: Some(TomlTime {
                        hour: 7,
                        minute: 32,
                        second: 10,
                        nanosecond: 500_000_000,
                    }),
                    offset: None,
                })
            ),
            entry(
                "b",
                TomlValue::Datetime(TomlDatetime {
                    date: leap_day,
                    time: None,
                    offset: None,
                })
            ),
            entry(
                "c",
                TomlValue::Datetime(TomlDatetime {
                    date: leap_day,
                    time: Some(TomlTime {
                        hour: 0,
                        minute: 0,
                        second: 1,
                        nanosecond: 0,
                    }),
                    offset: Some(TomlOffset::Custom { minutes: -90 }),
                })
            ),
        ]
    );
}

#[test]
fn tables_in_arrays_and_empty_tables_give_no_paths() {
    let doc = document("[[list]]\nx = 1\n[empty]\n");
    assert_eq!(
        flatten_toml_table(&doc),
        vec![entry(
            "list",
            TomlValue::Array(vec![TomlValue::Table(vec![entry(
                "x",
                TomlValue::Integer(1)
            )])])
        )]
    );
}

#[test]
fn a_document_that_is_no_table_is_one_entry_without_a_key() {
    assert_eq!(flatten_toml_table(&text("x")), vec![entry("", text("x"))]);
}

#[test]
fn keys_with_dots_can_meet_keys_of_nested_tables() {
    let flattened = flatten_toml_table(&document("\"a.b\" = 1\n[a]\nb = 2\n"));
    let keys: Vec<&str> = flattened.iter().map(|found| found.0.as_str()).collect();
    assert_eq!(keys, vec!["a.b", "a.b"]);
}

#[test]
fn defaults_lose_their_prefix_and_nested_defaults_stay_enforced() {
    let overrides =
        overrides_from_body("[defaults]\na.b = 1\n[other.defaults]\nc = 2\n").unwrap();
    assert_eq!(
        overrides,
        ServerConfigOverrides {
            enforced: vec![entry("other.defaults.c", TomlValue::Integer(2))],
            defaults: vec![entry("a.b", TomlValue::Integer(1))],
        }
    );
}

#[test]
fn an_empty_config_overrides_nothing() {
    assert_eq!(
        split_server_config(Vec::new()),
        Ok(ServerConfigOverrides::default())
    );
    assert_eq!(
        overrides_from_body("[defaults]\n"),
        Ok(ServerConfigOverrides::default())
    );
}

fn flags(entries: Vec<(String, TomlValue)>) -> ConfigLayerEntry {
    ConfigLayerEntry::new(
        ConfigLayerSource::SessionFlags,
        build_cli_overrides_layer(&entries),
    )
}

fn user_layer(source: &str) -> ConfigLayerEntry {
    ConfigLayerEntry::new(
        ConfigLayerSource::User {
            file: "/home/user/.codex/config.toml".to_string(),
            profile: None,
        },
        document(source),
    )
}

#[test]
fn user_choice_beats_server_defaults_but_not_enforced_entries() {
    let stack = ConfigLayerStack::default().with_layer_inserted_by_precedence(user_layer(
        r#"
            model = "user-picked-model"
            model_provider = "local-provider"
            "#,
    ));
    let overrides = ServerConfigOverrides {
        enforced: vec![entry("model_provider", text("cowork"))],
        defaults: vec![
            entry("model", text("qwen3.8-max")),
            entry("model_reasoning_effort", text("high")),
        ],
    };

    let effective = with_server_config_layers(stack, &overrides);

    assert_eq!(
        (
            effective.effective_value("model"),
            effective.effective_value("model_provider"),
            effective.effective_value("model_reasoning_effort"),
        ),
        (
            Some(&text("user-picked-model")),
            Some(&text("cowork")),
            Some(&text("high")),
        )
    );
    assert_eq!(effective.effective_value("sandbox_mode"), None);
}

fn ranks(stack: &ConfigLayerStack) -> Vec<u8> {
    stack
        .layers()
        .iter()
        .map(|layer| layer.source.precedence())
        .collect()
}

#[test]
fn server_layers_go_below_and_above_the_local_ones() {
    let stack = ConfigLayerStack::new()
        .with_layer_inserted_by_precedence(flags(vec![entry("model", text("flag"))]))
        .with_layer_inserted_by_precedence(user_layer("model = 'user'"));
    assert_eq!(ranks(&stack), vec![1, 2]);
    let overrides = ServerConfigOverrides {
        enforced: vec![entry("model", text("server"))],
        defaults: vec![entry("effort", text("high"))],
    };
    let stack = with_server_config_layers(stack, &overrides);
    assert_eq!(ranks(&stack), vec![0, 1, 2, 3]);
    assert_eq!(stack.effective_value("model"), Some(&text("server")));
    assert_eq!(stack.effective_value("effort"), Some(&text("high")));
}

#[test]
fn empty_parts_add_no_layer() {
    let none = with_server_config_layers(
        ConfigLayerStack::new(),
        &ServerConfigOverrides::default(),
    );
    assert_eq!(none.layers().len(), 0);
    let only_defaults = with_server_config_layers(
        ConfigLayerStack::new(),
        &ServerConfigOverrides {
            enforced: Vec::new(),
            defaults: vec![entry("a", TomlValue::Integer(1))],
        },
    );
    assert_eq!(ranks(&only_defaults), vec![0]);
}

#[test]
fn a_failed_fetch_leaves_the_layers_alone() {
    let stack =
        ConfigLayerStack::new().with_layer_inserted_by_precedence(user_layer("model = 'user'"));
    let stack = with_fetched_layers(stack, &Err(AdAgentConfigError::NotLoggedIn));
    assert_eq!(ranks(&stack), vec![1]);
    let stack = with_fetched_layers(
        stack,
        &Ok(ServerConfigOverrides {
            enforced: vec![entry("model", text("server"))],
            defaults: Vec::new(),
        }),
    );
    assert_eq!(ranks(&stack), vec![1, 3]);
    assert_eq!(stack.effective_value("model"), Some(&text("server")));
}

#[test]
fn an_enforced_value_hides_a_local_table_and_the_other_way_round() {
    let stack = with_server_config_layers(
        ConfigLayerStack::new().with_layer_inserted_by_precedence(user_layer(
            "a.b = 1\nc = 2\nother = 3\n",
        )),
        &ServerConfigOverrides {
            enforced: vec![entry("a", text("flat")), entry("c.d", text("deep"))],
            defaults: Vec::new(),
        },
    );
    assert_eq!(stack.effective_value("a"), Some(&text("flat")));
    assert_eq!(stack.effective_value("a.b"), None);
    assert_eq!(stack.effective_value("c"), None);
    assert_eq!(stack.effective_value("c.d"), Some(&text("deep")));
    assert_eq!(stack.effective_value("other"), Some(&TomlValue::Integer(3)));
}

#[test]
fn of_two_entries_with_one_key_the_later_applies() {
    let stack = ConfigLayerStack::new().with_layer_inserted_by_precedence(flags(vec![
        entry("a", text("first")),
        entry("a", text("second")),
    ]));
    assert_eq!(stack.effective_value("a"), Some(&text("second")));
}

#[test]
fn a_value_that_a_later_entry_made_a_table_hides_nothing() {
    let stack = |entries: Vec<(String, TomlValue)>| {
        ConfigLayerStack::new()
            .with_layer_inserted_by_precedence(user_layer("a.c = 5\n"))
            .with_layer_inserted_by_precedence(flags(entries))
    };
    let grown = stack(vec![
        entry("a", TomlValue::Integer(1)),
        entry("a.b", TomlValue::Integer(2)),
    ]);
    assert_eq!(grown.effective_value("a"), None);
    assert_eq!(grown.effective_value("a.b"), Some(&TomlValue::Integer(2)));
    assert_eq!(grown.effective_value("a.c"), Some(&TomlValue::Integer(5)));
    let wiped = stack(vec![
        entry("a.c", TomlValue::Integer(0)),
        entry("a", TomlValue::Integer(1)),
        entry("a.b", TomlValue::Integer(2)),
    ]);
    assert_eq!(wiped.effective_value("a.c"), Some(&TomlValue::Integer(5)));
    let flat = stack(vec![
        entry("a.b", TomlValue::Integer(2)),
        entry("a", TomlValue::Integer(1)),
    ]);
    assert_eq!(flat.effective_value("a"), Some(&TomlValue::Integer(1)));
    assert_eq!(flat.effective_value("a.b"), None);
    assert_eq!(flat.effective_value("a.c"), None);
}

#[test]
fn a_table_among_the_values_sets_the_keys_in_it() {
    let stack = ConfigLayerStack::new()
        .with_layer_inserted_by_precedence(user_layer("a.b = 1\na.c = 2\n"))
        .with_layer_inserted_by_precedence(flags(vec![entry("a", document("b = 7\n"))]));
    assert_eq!(stack.effective_value("a.b"), Some(&TomlValue::Integer(7)));
    assert_eq!(stack.effective_value("a.c"), Some(&TomlValue::Integer(2)));
    assert_eq!(stack.effective_value("a"), None);
}

#[test]
fn entries_rebuild_their_document_in_any_order() {
    let doc = document("a = 1\n[b]\nc = 'x'\n[b.d]\ne = [2]\nf = true\n");
    let mut entries = flatten_toml_table(&doc);
    assert_eq!(build_cli_overrides_layer(&entries), doc);
    entries.reverse();
    let mut again = flatten_toml_table(&build_cli_overrides_layer(&entries));
    again.sort_by(|a, b| a.0.cmp(&b.0));
    entries.sort_by(|a, b| a.0.cmp(&b.0));
    assert_eq!(again, entries);
    let hollow = document("a = 1\n[empty]\n");
    assert_eq!(
        build_cli_overrides_layer(&flatten_toml_table(&hollow)),
        document("a = 1\n")
    );
    assert_eq!(
        build_cli_overrides_layer(&vec![
            entry("a", TomlValue::Integer(1)),
            entry("a.b", TomlValue::Integer(2)),
        ]),
        document("a.b = 2\n")
    );
}

#[test]
fn a_flattened_document_sets_its_own_leaves() {
    let stack = ConfigLayerStack::new()
        .with_layer_inserted_by_precedence(user_layer("[a.b]\nc = 1\n[a.d]\ne = 2\n"));
    assert_eq!(stack.effective_value("a.b.c"), Some(&TomlValue::Integer(1)));
    assert_eq!(stack.effective_value("a.d.e"), Some(&TomlValue::Integer(2)));
    assert_eq!(stack.effective_value("a.b"), None);
    assert_eq!(stack.effective_value("a.x"), None);
}
