use relay_gateway::cache_flow::{after_lookup, plan_call, plan_stream_call, CacheStep, KeyOutcome, Lookup, StreamTee};
use relay_gateway::json::{json_eq, Json, JsonNumber};
use relay_gateway::marks::{CacheMarkStatus, CacheReason, CacheSurface};
use relay_gateway::tool_cache::{
    after_tool_lookup, decode_tool_result, encode_tool_result, plan_tool_call, should_store_tool_result,
    ttl_millis, ToolLookup, ToolResult, ToolStep,
};

fn to_json(value: &serde_json::Value) -> Json {
    match value {
        serde_json::Value::Null => Json::Null,
        serde_json::Value::Bool(b) => Json::Bool(*b),
        serde_json::Value::Number(n) => {
            if let Some(u) = n.as_u64() {
                Json::Number(JsonNumber::PosInt(u))
            } else if let Some(i) = n.as_i64() {
                Json::Number(JsonNumber::NegInt(i))
            } else {
                Json::Number(JsonNumber::Float(n.as_f64().unwrap_or_default().to_bits()))
            }
        }
        serde_json::Value::String(s) => Json::String(s.clone()),
        serde_json::Value::Array(items) => Json::Array(items.iter().map(to_json).collect()),
        serde_json::Value::Object(members) => {
            Json::Object(members.iter().map(|(k, v)| (k.clone(), to_json(v))).collect())
        }
    }
}

fn json(text: &str) -> Json {
    to_json(&serde_json::from_str(text).expect("test JSON parses"))
}

#[test]
fn tool_results_round_trip_through_their_stored_form() {
    let with_annotation = ToolResult { result: json(r#"{"rows":[1,2]}"#), annotation: Some(json(r#"{"source":"db"}"#)) };
    let stored = encode_tool_result(&with_annotation);
    assert!(json_eq(
        &stored,
        &json(r#"{"$schema":"nemo.relay.ResponseCacheToolResult@1","annotation":{"source":"db"},"result":{"rows":[1,2]}}"#)
    ));
    let decoded = decode_tool_result(&stored);
    assert!(json_eq(&decoded.result, &with_annotation.result));
    assert!(json_eq(decoded.annotation.as_ref().unwrap(), with_annotation.annotation.as_ref().unwrap()));

    let bare = ToolResult { result: json(r#""plain""#), annotation: None };
    let decoded = decode_tool_result(&encode_tool_result(&bare));
    assert!(json_eq(&decoded.result, &bare.result));
    assert!(decoded.annotation.is_none());
}

#[test]
fn untagged_values_decode_as_bare_results() {
    let decoded = decode_tool_result(&json(r#"{"result": 1}"#));
    assert!(json_eq(&decoded.result, &json(r#"{"result": 1}"#)));
    assert!(decoded.annotation.is_none());
}

#[test]
fn error_shaped_tool_results_are_stored_only_when_errors_are_cached() {
    assert!(!should_store_tool_result(&json(r#"{"error":"boom"}"#), false));
    assert!(should_store_tool_result(&json(r#"{"error":"boom"}"#), true));
    assert!(should_store_tool_result(&json(r#"{"ok":true}"#), false));
}

#[test]
fn ttl_seconds_become_milliseconds() {
    assert_eq!(ttl_millis(60), 60_000);
    assert_eq!(ttl_millis(u64::MAX), ((u64::MAX as u128 * 1000) as u64));
}

#[test]
fn uncacheable_tools_run_live_without_a_key() {
    match plan_tool_call(false, &KeyOutcome::Key("k".to_string()), false) {
        CacheStep::RunLive { mark, store_key } => {
            assert_eq!(mark.status, CacheMarkStatus::Bypass);
            assert_eq!(mark.surface, CacheSurface::Tool);
            assert_eq!(mark.reason, Some(CacheReason::Uncacheable));
            assert!(store_key.is_none());
        }
        _ => panic!("expected a live run"),
    }
}

#[test]
fn sampled_calls_run_live_and_refresh_the_entry() {
    match plan_call(CacheSurface::Llm, &KeyOutcome::Key("k".to_string()), true) {
        CacheStep::RunLive { mark, store_key } => {
            assert_eq!(mark.reason, Some(CacheReason::Sampled));
            assert_eq!(store_key.as_deref(), Some("k"));
        }
        _ => panic!("expected a live run"),
    }
    match plan_call(CacheSurface::Llm, &KeyOutcome::Key("k".to_string()), false) {
        CacheStep::Lookup { key } => assert_eq!(key, "k"),
        _ => panic!("expected a lookup"),
    }
    match plan_stream_call(false, &KeyOutcome::Key("k".to_string()), false) {
        CacheStep::RunLive { mark, store_key } => {
            assert_eq!(mark.reason, Some(CacheReason::StreamNoCodec));
            assert!(store_key.is_none());
        }
        _ => panic!("expected a live run"),
    }
}

#[test]
fn lookups_replay_miss_or_fail_open() {
    let key = "k".to_string();
    match after_lookup(&key, Lookup::Found { created_unix_ms: 1_000 }, 4_000, 60_000, false) {
        CacheStep::Replay { mark } => {
            assert_eq!(mark.status, CacheMarkStatus::Hit);
            assert_eq!(mark.age_ms, Some(3_000));
        }
        _ => panic!("expected a replay"),
    }
    match after_lookup(&key, Lookup::Found { created_unix_ms: 1_000 }, 4_000, 60_000, true) {
        CacheStep::RunLive { mark, store_key } => {
            assert_eq!(mark.reason, Some(CacheReason::ReplayLossy));
            assert!(store_key.is_none());
        }
        _ => panic!("expected a live run"),
    }
    match after_lookup(&key, Lookup::Absent, 4_000, 60_000, false) {
        CacheStep::RunLive { mark, store_key } => {
            assert_eq!(mark.status, CacheMarkStatus::Miss);
            assert_eq!(store_key.as_deref(), Some("k"));
        }
        _ => panic!("expected a live run"),
    }
    match after_lookup(&key, Lookup::Failed, 4_000, 60_000, false) {
        CacheStep::RunLive { mark, store_key } => {
            assert_eq!(mark.reason, Some(CacheReason::StoreError));
            assert!(store_key.is_none());
        }
        _ => panic!("expected a live run"),
    }
}

#[test]
fn tool_lookups_replay_hits_and_skip_cached_errors() {
    let key = "k".to_string();
    let stored = encode_tool_result(&ToolResult { result: json(r#"{"error":"boom"}"#), annotation: None });
    match after_tool_lookup(&key, &ToolLookup::Found { response: stored, created_unix_ms: 10 }, false, 20, 5) {
        ToolStep::RunLive { mark, store_key } => {
            assert_eq!(mark.reason, Some(CacheReason::CachedError));
            assert_eq!(store_key.as_deref(), Some("k"));
        }
        _ => panic!("expected a live run"),
    }
    let stored = encode_tool_result(&ToolResult { result: json("7"), annotation: None });
    match after_tool_lookup(&key, &ToolLookup::Found { response: stored, created_unix_ms: 10 }, false, 20, 5) {
        ToolStep::Replay { mark, result } => {
            assert_eq!(mark.status, CacheMarkStatus::Hit);
            assert_eq!(mark.age_ms, Some(10));
            assert_eq!(mark.ttl_ms, Some(5_000));
            assert_eq!(mark.saved_invocations, Some(1));
            assert!(json_eq(&result.result, &json("7")));
        }
        _ => panic!("expected a replay"),
    }
    match after_tool_lookup(&key, &ToolLookup::Absent, false, 20, 5) {
        ToolStep::RunLive { mark, store_key } => {
            assert_eq!(mark.ttl_ms, Some(5_000));
            assert_eq!(store_key.as_deref(), Some("k"));
        }
        _ => panic!("expected a live run"),
    }
}

#[test]
fn a_tee_stores_only_a_cleanly_closed_complete_stream() {
    let good = json(r#"{"content": [{"type": "text", "text": "hi"}]}"#);
    let mut tee = StreamTee::new();
    assert!(tee.admit_chunk(&json(r#"{"type": "content_block_delta"}"#)));
    assert!(!tee.should_commit(true, true, &good), "not yet terminal");
    assert!(tee.admit_chunk(&json(r#"{"type": "message_stop"}"#)));
    assert!(tee.should_commit(true, true, &good));
    assert!(!tee.should_commit(true, false, &good), "close failed");
    assert!(!tee.should_commit(false, true, &good), "consumer dropped");
    assert!(!tee.should_commit(true, true, &json("{}")), "no content");
    assert!(!tee.should_commit(true, true, &json(r#"{"error": "bad", "content": [1]}"#)), "error response");

    let mut refused = StreamTee::new();
    assert!(!refused.admit_chunk(&json(r#"{"type": "error"}"#)));
    assert!(refused.admit_chunk(&json(r#"{"type": "message_stop"}"#)));
    assert!(!refused.should_commit(true, true, &good));
}
