use relay_gateway::agent_assets::{always_loaded_mcp_config, codex_marketplace_manifest, codex_mcp_config, codex_plugin_manifest};
use relay_gateway::codex_hooks::{
    batch_write_params, clear_hook_trust_edits, hook_listing, hook_state_key_path, initialize_params,
    no_result_message, notification_message, request_failed_message, request_message, request_reply,
    restore_hook_trust_edits, timeout_message, trust_hooks_edit, CodexHookMetadata, HookListing, RequestReply,
};
use relay_gateway::json::{json_eq, Json, JsonNumber};
use relay_gateway::mcp_launch::{mcp_gateway_mode, persistent_server, McpGatewayMode};

fn to_json(value: &serde_json::Value) -> Json {
    match value {
        serde_json::Value::Null => Json::Null,
        serde_json::Value::Bool(b) => Json::Bool(*b),
        serde_json::Value::Number(n) => {
            if let Some(u) = n.as_u64() {
                Json::Number(JsonNumber::PosInt(u))
            } else if let Some(i) = n.as_i64() {
                Json::Number(JsonNumber::NegInt(i))
            } else {
                Json::Number(JsonNumber::Float(n.as_f64().unwrap_or_default().to_bits()))
            }
        }
        serde_json::Value::String(s) => Json::String(s.clone()),
        serde_json::Value::Array(items) => Json::Array(items.iter().map(to_json).collect()),
        serde_json::Value::Object(members) => {
            Json::Object(members.iter().map(|(k, v)| (k.clone(), to_json(v))).collect())
        }
    }
}

fn json(text: &str) -> Json {
    to_json(&serde_json::from_str(text).expect("test JSON parses"))
}

fn same(a: &Json, text: &str) -> bool {
    let sorted_a = relay_gateway::canonical::sort_value(a);
    let sorted_b = relay_gateway::canonical::sort_value(&json(text));
    json_eq(&sorted_a, &sorted_b)
}

fn hook(key: &str, hash: &str) -> CodexHookMetadata {
    CodexHookMetadata {
        key: key.to_string(),
        event_name: "PreToolUse".to_string(),
        handler_type: "command".to_string(),
        command: Some("relay hook".to_string()),
        source_path: "/p/hooks.json".to_string(),
        source: "plugin".to_string(),
        plugin_id: None,
        enabled: false,
        current_hash: hash.to_string(),
        trust_status: "untrusted".to_string(),
    }
}

#[test]
fn hook_state_key_paths_quote_the_key_as_json() {
    assert_eq!(hook_state_key_path("plugin:pre"), r#"hooks.state."plugin:pre""#);
    assert_eq!(hook_state_key_path("a\"b\\c\n"), r#"hooks.state."a\"b\\c\n""#);
    assert_eq!(hook_state_key_path("a\"b\\c\n"), format!("hooks.state.{}", serde_json::to_string("a\"b\\c\n").unwrap()));
}

#[test]
fn requests_and_notifications_are_json_rpc_messages() {
    assert!(same(&request_message("hooks/list", 7, json(r#"{"cwds":["/w"]}"#)), r#"{"method":"hooks/list","id":7,"params":{"cwds":["/w"]}}"#));
    assert!(same(&notification_message("initialized", None), r#"{"method":"initialized"}"#));
    assert!(same(&notification_message("x", Some(json("[1]"))), r#"{"method":"x","params":[1]}"#));
    assert!(same(&initialize_params("1.2.3"), r#"{"clientInfo":{"name":"nemo_relay","title":"NeMo Relay","version":"1.2.3"}}"#));
    assert!(same(&batch_write_params(vec![json("1")]), r#"{"edits":[1],"reloadUserConfig":true}"#));
}

#[test]
fn replies_answer_only_their_request() {
    assert!(matches!(request_reply(&json(r#"{"id":2,"result":{}}"#), 1), RequestReply::Unrelated));
    assert!(matches!(request_reply(&json(r#"{"method":"note"}"#), 1), RequestReply::Unrelated));
    match request_reply(&json(r#"{"id":1,"error":{"code":-1},"result":1}"#), 1) {
        RequestReply::Failed(e) => assert!(same(&e, r#"{"code":-1}"#)),
        _ => panic!("expected a failure"),
    }
    assert!(matches!(request_reply(&json(r#"{"id":1,"error":null}"#), 1), RequestReply::Failed(Json::Null)));
    match request_reply(&json(r#"{"id":1,"result":[true]}"#), 1) {
        RequestReply::Answered(r) => assert!(same(&r, "[true]")),
        _ => panic!("expected an answer"),
    }
    assert!(matches!(request_reply(&json(r#"{"id":1}"#), 1), RequestReply::Unanswered));
    assert_eq!(request_failed_message("hooks/list", "{}"), "Codex app-server `hooks/list` failed: {}");
    assert_eq!(no_result_message("m"), "Codex app-server `m` response had no result");
    assert_eq!(timeout_message("m"), "timed out waiting for Codex app-server `m` response");
}

#[test]
fn hook_listings_report_load_errors_before_hooks() {
    assert_eq!(hook_listing(&json(r#"{"data":[]}"#)).err().unwrap(), "Codex app-server returned no hook-list entry");
    assert!(hook_listing(&json(r#"{}"#)).is_err());
    match hook_listing(&json(r#"{"data":[{"errors":["bad"],"hooks":[1]}]}"#)).unwrap() {
        HookListing::LoadErrors(errors) => assert_eq!(errors.len(), 1),
        _ => panic!("expected load errors"),
    }
    match hook_listing(&json(r#"{"data":[{"errors":[],"hooks":[1]}]}"#)).unwrap() {
        HookListing::Hooks(h) => assert!(same(&h, "[1]")),
        _ => panic!("expected hooks"),
    }
    match hook_listing(&json(r#"{"data":[{}]}"#)).unwrap() {
        HookListing::Hooks(h) => assert!(same(&h, "[]")),
        _ => panic!("expected hooks"),
    }
}

#[test]
fn trust_edits_upsert_hook_state() {
    let edit = trust_hooks_edit(&vec![hook("a", "h1"), hook("b", "h2"), hook("a", "h3")]);
    assert!(same(
        &edit,
        r#"{"keyPath":"hooks.state","mergeStrategy":"upsert","value":{"a":{"trusted_hash":"h3","enabled":true},"b":{"trusted_hash":"h2","enabled":true}}}"#
    ));
    let cleared = clear_hook_trust_edits(&vec!["a".to_string()]);
    assert!(same(&cleared[0], r#"{"keyPath":"hooks.state.\"a\"","value":null,"mergeStrategy":"upsert"}"#));
    let restored = restore_hook_trust_edits(&vec![("a".to_string(), Some(json(r#"{"enabled":false}"#))), ("b".to_string(), None)]);
    assert!(same(&restored[0], r#"{"keyPath":"hooks.state.\"a\"","value":{"enabled":false},"mergeStrategy":"upsert"}"#));
    assert!(same(&restored[1], r#"{"keyPath":"hooks.state.\"b\"","value":null,"mergeStrategy":"upsert"}"#));
}

#[test]
fn installed_documents_describe_the_local_plugin() {
    assert!(same(
        &codex_marketplace_manifest("local", "nemo-relay"),
        r#"{"name":"local","interface":{"displayName":"NeMo Relay Local"},"plugins":[{"name":"nemo-relay","source":{"source":"local","path":"./plugins/nemo-relay-plugin"},"policy":{"installation":"AVAILABLE","authentication":"ON_INSTALL"},"category":"Coding"}]}"#
    ));
    let plugin = codex_plugin_manifest("nemo-relay", "0.9.0");
    assert_eq!(plugin.get_str("version").unwrap(), "0.9.0");
    assert_eq!(plugin.get("interface").unwrap().get_str("brandColor").unwrap(), "#76B900");
    assert!(same(plugin.get("keywords").unwrap(), r#"["nemo-relay","codex","hooks","observability"]"#));
}

#[test]
fn mcp_server_entries_extend_the_persistent_launch_entry() {
    let server = persistent_server("/bin/relay", "GEN_FILE", "/g", "GEN_TOKEN", "t", "127.0.0.1:47632");
    assert!(same(
        &server,
        r#"{"command":"/bin/relay","args":["mcp"],"env":{"NEMO_RELAY_GATEWAY_BIND":"127.0.0.1:47632","GEN_FILE":"/g","GEN_TOKEN":"t"}}"#
    ));
    let loaded = always_loaded_mcp_config(relay_gateway::json::json_clone(&server));
    assert!(same(
        &loaded,
        r#"{"mcpServers":{"nemo-relay":{"command":"/bin/relay","args":["mcp"],"env":{"NEMO_RELAY_GATEWAY_BIND":"127.0.0.1:47632","GEN_FILE":"/g","GEN_TOKEN":"t"},"alwaysLoad":true}}}"#
    ));
    let codex = codex_mcp_config(server, &vec!["HOME".to_string()]);
    let entry = codex.get("nemo-relay").unwrap();
    assert!(same(entry.get("env_vars").unwrap(), r#"["HOME"]"#));
    assert!(same(entry.get("required").unwrap(), "true"));
    assert!(same(entry.get("startup_timeout_sec").unwrap(), "20"));
}

#[test]
fn transparent_runs_borrow_the_wrappers_gateway() {
    match mcp_gateway_mode(Some("1".to_string()), Some("http://127.0.0.1:9".to_string()), "URL", "RUN").unwrap() {
        McpGatewayMode::Borrowed { gateway_url } => assert_eq!(gateway_url, "http://127.0.0.1:9"),
        _ => panic!("expected a borrowed gateway"),
    }
    assert_eq!(mcp_gateway_mode(Some("1".to_string()), None, "URL", "RUN").err().unwrap().message(), "URL is required when RUN=1");
    assert!(matches!(mcp_gateway_mode(Some("0".to_string()), None, "URL", "RUN"), Ok(McpGatewayMode::Managed)));
    assert!(matches!(mcp_gateway_mode(None, None, "URL", "RUN"), Ok(McpGatewayMode::Managed)));
}

#[test]
fn any_gateway_override_requests_the_daemon() {
    let overrides = relay_gateway::mcp_launch::GatewayOverrides::default();
    assert!(!overrides.requested_daemon_mode());
    let overrides = relay_gateway::mcp_launch::GatewayOverrides {
        ready_file: Some("/tmp/ready".to_string()),
        ..Default::default()
    };
    assert!(overrides.requested_daemon_mode());
    let overrides = relay_gateway::mcp_launch::GatewayOverrides {
        max_passthrough_body_bytes: Some(0),
        ..Default::default()
    };
    assert!(overrides.requested_daemon_mode());
}
