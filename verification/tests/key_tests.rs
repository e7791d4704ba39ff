use relay_gateway::cache_flow::KeyOutcome;
use relay_gateway::canonical::{canonicalize_value, fingerprint, sha256_hex};
use relay_gateway::json::{Json, JsonNumber};
use relay_gateway::marks::CacheReason;
use relay_gateway::tool_key::{allowlisted_headers, build_tool_cache_key};

fn to_json(value: &serde_json::Value) -> Json {
    match value {
        serde_json::Value::Null => Json::Null,
        serde_json::Value::Bool(b) => Json::Bool(*b),
        serde_json::Value::Number(n) => {
            if let Some(u) = n.as_u64() {
                Json::Number(JsonNumber::PosInt(u))
            } else if let Some(i) = n.as_i64() {
                Json::Number(JsonNumber::NegInt(i))
            } else {
                let f = n.as_f64().unwrap_or_default();
                let f = if f == 0.0 { 0.0 } else { f };
                Json::Number(JsonNumber::Float(f.to_bits()))
            }
        }
        serde_json::Value::String(s) => Json::String(s.clone()),
        serde_json::Value::Array(items) => Json::Array(items.iter().map(to_json).collect()),
        serde_json::Value::Object(members) => Json::Object(
            members
                .iter()
                .map(|(k, v)| (k.clone(), to_json(v)))
                .collect(),
        ),
    }
}

fn json(text: &str) -> Json {
    to_json(&serde_json::from_str(text).expect("test JSON parses"))
}

fn tool_key(
    namespace: &str,
    tool: &str,
    version: Option<&str>,
    args: Json,
    arg_skip: &[String],
) -> String {
    tool_key_with_error_policy(namespace, tool, version, args, arg_skip, false)
}

fn tool_key_with_error_policy(
    namespace: &str,
    tool: &str,
    version: Option<&str>,
    args: Json,
    arg_skip: &[String],
    cache_errors: bool,
) -> String {
    match build_tool_cache_key(namespace, tool, version, &args, &arg_skip.to_vec(), cache_errors) {
        KeyOutcome::Key(key) => key,
        other => panic!("expected a tool key, got {other:?}"),
    }
}

#[test]
fn fingerprint_matches_canonicalize_then_hash() {
    let doc = json(
        r#"{
            "z": {"nested": [3, 1.5, -0.0, 1e21]},
            "a": "höllo \u{1F600} wörld",
            "codec": null,
            "headers": {},
            "body": {"messages": [{"role": "user", "content": "hi"}]}
        }"#
        .replace("\\u{1F600}", "\u{1F600}")
        .as_str(),
    );
    assert_eq!(
        fingerprint(&doc).unwrap(),
        sha256_hex(&canonicalize_value(&doc).unwrap()),
    );
}

#[test]
fn same_tool_and_args_yield_the_same_key() {
    let args = r#"{"q": "weather", "units": "metric"}"#;
    assert_eq!(
        tool_key("", "get_weather", None, json(args), &[]),
        tool_key(
            "",
            "get_weather",
            None,
            json(r#"{"units": "metric", "q": "weather"}"#),
            &[]
        )
    );
}

#[test]
fn tool_name_args_namespace_and_version_each_separate_keys() {
    let base = || json(r#"{"q": "x"}"#);
    let key = tool_key("", "t", None, base(), &[]);
    assert_ne!(key, tool_key("", "t", None, json(r#"{"q": "y"}"#), &[]), "args");
    assert_ne!(key, tool_key("", "other", None, base(), &[]), "tool name");
    assert_ne!(key, tool_key("ns", "t", None, base(), &[]), "namespace");
    assert_ne!(key, tool_key("", "t", Some("v1"), base(), &[]), "version");
}

#[test]
fn tool_keys_bypass_unrepresentable_integers() {
    assert_eq!(
        build_tool_cache_key(
            "key-test",
            "lookup",
            None,
            &json(r#"{"id": 18014398509481985}"#),
            &Vec::new(),
            false,
        ),
        KeyOutcome::Bypass(CacheReason::UnrepresentableNumber)
    );
}

#[test]
fn arg_skip_drops_only_the_listed_keys() {
    let skip = vec!["request_id".to_string()];
    assert_eq!(
        tool_key("", "t", None, json(r#"{"q": "x", "request_id": "a"}"#), &skip),
        tool_key("", "t", None, json(r#"{"q": "x", "request_id": "b"}"#), &skip)
    );
    assert_ne!(
        tool_key("", "t", None, json(r#"{"q": "x", "request_id": "a"}"#), &skip),
        tool_key("", "t", None, json(r#"{"q": "y", "request_id": "a"}"#), &skip)
    );
}

#[test]
fn arg_skip_policy_partitions_keys_and_normalizes_order() {
    let no_skip: Vec<String> = Vec::new();
    let locale_only = vec!["locale".to_string()];
    assert_ne!(
        tool_key("key-test", "lookup", None, json(r#"{"q": "x"}"#), &no_skip),
        tool_key("key-test", "lookup", None, json(r#"{"q": "x"}"#), &locale_only),
        "a policy change must not reuse an entry even when the newly skipped key is absent"
    );

    let reordered_and_duplicated = vec![
        "trace_id".to_string(),
        "locale".to_string(),
        "trace_id".to_string(),
    ];
    let normalized = vec!["locale".to_string(), "trace_id".to_string()];
    assert_eq!(
        tool_key(
            "key-test",
            "lookup",
            None,
            json(r#"{"q": "x", "locale": "fr", "trace_id": "one"}"#),
            &reordered_and_duplicated,
        ),
        tool_key(
            "key-test",
            "lookup",
            None,
            json(r#"{"q": "x", "locale": "de", "trace_id": "two"}"#),
            &normalized,
        ),
        "equivalent skip policies must keep their intended hit behavior"
    );
}

#[test]
fn key_tests_cache_error_policy_partitions_tool_keys() {
    assert_ne!(
        tool_key_with_error_policy("key-test", "lookup", None, json(r#"{"q": "x"}"#), &[], false),
        tool_key_with_error_policy("key-test", "lookup", None, json(r#"{"q": "x"}"#), &[], true),
        "an opt-in error-cache entry must not be replayed after the policy is disabled"
    );
}

#[test]
fn negative_integers_beyond_the_safe_json_range_bypass_tool_keys() {
    let too_large = -9_007_199_254_740_993_i64;
    assert_eq!(
        build_tool_cache_key(
            "key-test",
            "lookup",
            None,
            &Json::Number(JsonNumber::NegInt(too_large)),
            &Vec::new(),
            false
        ),
        KeyOutcome::Bypass(CacheReason::UnrepresentableNumber)
    );
}

#[test]
fn key_headers_match_case_insensitively_and_exclude_unlisted_values() {
    let headers = vec![
        ("X-Tenant".to_string(), Json::String("tenant-a".to_string())),
        ("Authorization".to_string(), Json::String("secret".to_string())),
    ];

    let kept = allowlisted_headers(&headers, &vec!["x-tenant".to_string()]);
    assert_eq!(kept.len(), 1);
    let kept = Json::Object(kept);
    assert!(matches!(kept.get("x-tenant"), Some(Json::String(v)) if v == "tenant-a"));
}

#[test]
fn the_largest_safe_integers_are_still_keyed() {
    assert!(matches!(
        build_tool_cache_key("ns", "t", None, &json(r#"{"id": 9007199254740991}"#), &Vec::new(), false),
        KeyOutcome::Key(_)
    ));
    assert!(matches!(
        build_tool_cache_key("ns", "t", None, &json(r#"{"id": -9007199254740991}"#), &Vec::new(), false),
        KeyOutcome::Key(_)
    ));
    assert_eq!(
        build_tool_cache_key("ns", "t", None, &json(r#"{"id": 9007199254740992}"#), &Vec::new(), false),
        KeyOutcome::Bypass(CacheReason::UnrepresentableNumber)
    );
}

#[test]
fn canonical_text_sorts_members_and_escapes_strings() {
    let doc = json(r#"{"b": [1, -2, true, null], "a": "q\"\\\n\u0001", "c": {"y": 1, "x": 2}}"#);
    assert_eq!(
        canonicalize_value(&doc).unwrap(),
        r#"{"a":"q\"\\\n\u0001","b":[1,-2,true,null],"c":{"x":2,"y":1}}"#
    );
    assert_eq!(
        sha256_hex("abc"),
        "ba7816bf8f01cfea414140de5dae2223b00361a396177a9cb410ff61f20015ad"
    );
}

fn member(key: &str, value: Json) -> (String, Json) {
    (key.to_string(), value)
}

fn text(value: &str) -> Json {
    Json::String(value.to_string())
}

#[test]
fn member_order_at_any_depth_does_not_change_the_canonical_text() {
    let first = Json::Object(vec![
        member("model", text("m")),
        member(
            "messages",
            Json::Array(vec![Json::Object(vec![member("role", text("user")), member("content", text("hi"))])]),
        ),
        member("tool_choice", text("auto")),
    ]);
    let second = Json::Object(vec![
        member("tool_choice", text("auto")),
        member(
            "messages",
            Json::Array(vec![Json::Object(vec![member("content", text("hi")), member("role", text("user"))])]),
        ),
        member("model", text("m")),
    ]);
    assert_eq!(canonicalize_value(&first), canonicalize_value(&second));
    assert_eq!(
        canonicalize_value(&first).unwrap(),
        r#"{"messages":[{"content":"hi","role":"user"}],"model":"m","tool_choice":"auto"}"#
    );
    assert_eq!(fingerprint(&first), fingerprint(&second));
}
