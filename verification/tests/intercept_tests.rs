use relay_gateway::cache_shapes::{
    backend_max_bytes, DEFAULT_MAX_BYTES, aggregate_has_no_content, aggregate_replay_lossy, chunk_has_uncollected_response_fields,
    chunk_is_inband_error, is_error_response, is_error_shaped_tool_result, StreamCompletion,
};
use relay_gateway::json::{Json, JsonNumber};
use relay_gateway::sampling::{next_rng_state, rng_seed, unit_sample};

fn to_json(value: &serde_json::Value) -> Json {
    match value {
        serde_json::Value::Null => Json::Null,
        serde_json::Value::Bool(b) => Json::Bool(*b),
        serde_json::Value::Number(n) => {
            if let Some(u) = n.as_u64() {
                Json::Number(JsonNumber::PosInt(u))
            } else if let Some(i) = n.as_i64() {
                Json::Number(JsonNumber::NegInt(i))
            } else {
                Json::Number(JsonNumber::Float(n.as_f64().unwrap_or_default().to_bits()))
            }
        }
        serde_json::Value::String(s) => Json::String(s.clone()),
        serde_json::Value::Array(items) => Json::Array(items.iter().map(to_json).collect()),
        serde_json::Value::Object(members) => {
            Json::Object(members.iter().map(|(k, v)| (k.clone(), to_json(v))).collect())
        }
    }
}

fn json(text: &str) -> Json {
    to_json(&serde_json::from_str(text).expect("test JSON parses"))
}

#[test]
fn chat_stream_fidelity_gate_rejects_every_uncollected_non_null_shape() {
    let supported = json(
        r#"{
        "id": "chatcmpl-1",
        "object": "chat.completion.chunk",
        "created": 1700000000,
        "model": "gpt-4o",
        "choices": [{
            "index": 0,
            "delta": {
                "role": "assistant",
                "content": "hello",
                "tool_calls": [{
                    "index": 0,
                    "id": "call-1",
                    "type": "function",
                    "function": {"name": "lookup", "arguments": "{}"}
                }]
            },
            "finish_reason": null,
            "logprobs": null
        }],
        "usage": null
    }"#,
    );
    assert!(!chunk_has_uncollected_response_fields(&supported));

    for unsafe_chunk in [
        r#"{"choices": [], "system_fingerprint": "fp_123"}"#,
        r#"{"choices": [{"index": 0, "delta": {"content": ["not", "text"]}}]}"#,
        r#"{"choices": [{"index": 0, "delta": {"tool_calls": "not-an-array"}}]}"#,
        r#"{"choices": [{"index": 0, "delta": {"tool_calls": [{
            "index": 0,
            "function": {"name": "lookup", "arguments": "{}", "extension": true}
        }]}}]}"#,
    ] {
        assert!(
            chunk_has_uncollected_response_fields(&json(unsafe_chunk)),
            "unsupported response data must veto aggregate storage: {unsafe_chunk}"
        );
    }
}

#[test]
fn malformed_stream_shapes_are_not_aggregated() {
    for malformed in [
        "null",
        r#"{"choices": {}}"#,
        r#"{"choices": [null]}"#,
        r#"{"choices": [{"index": "first"}]}"#,
        r#"{"choices": [{"finish_reason": 1}]}"#,
        r#"{"choices": [{"unsupported": true}]}"#,
        r#"{"choices": [{"delta": "not-an-object"}]}"#,
        r#"{"choices": [{"delta": {"tool_calls": [null]}}]}"#,
        r#"{"choices": [{"delta": {"tool_calls": [{"id": 1}]}}]}"#,
        r#"{"choices": [{"delta": {"tool_calls": [{"unsupported": true}]}}]}"#,
        r#"{"choices": [{"delta": {"tool_calls": [{"function": "not-an-object"}]}}]}"#,
    ] {
        assert!(
            chunk_has_uncollected_response_fields(&json(malformed)),
            "malformed stream chunk must not be cached: {malformed}"
        );
    }

    assert!(!chunk_has_uncollected_response_fields(&json(r#"{"type": "message_delta"}"#)));
    assert!(!chunk_has_uncollected_response_fields(&json(r#"{"choices": null}"#)));
    assert!(
        !chunk_has_uncollected_response_fields(&json(r#"{"choices": [{"delta": {"tool_calls": [{"id": null}]}}]}"#)),
        "null tool-call metadata is harmless when no uncollectable fields are present"
    );
}

#[test]
fn replay_and_error_guards_reject_unfaithful_or_failed_responses() {
    assert!(aggregate_replay_lossy(&json(
        r#"{"choices": [{"message": {"role": "assistant", "content": null, "tool_calls": []}}]}"#
    )));
    assert!(chunk_is_inband_error(&json(r#"{"type": "response.failed"}"#)));
    assert!(chunk_is_inband_error(&json(r#"{"error": {"message": "upstream failed"}}"#)));
    assert!(!chunk_is_inband_error(&json(r#"{"error": null}"#)));
    assert!(!is_error_response(&json(r#""not-an-object""#)));
}

#[test]
fn sampled_bypass_uses_a_unit_interval_rng() {
    assert_eq!(rng_seed(0) & 1, 1, "xorshift state must never be zero");
    assert_eq!(rng_seed(u64::MAX) & 1, 1, "xorshift state must never be zero");
    let state = next_rng_state(1);
    assert_eq!(state, 1 ^ (1 << 13) ^ ((1 ^ (1 << 13)) >> 7) ^ ((1 ^ (1u64 << 13) ^ ((1 ^ (1 << 13)) >> 7)) << 17));
    let sample = unit_sample(state);
    assert!(sample < 1 << 53, "the sample scales into the unit interval");
}

#[test]
fn response_cache_fidelity_helpers_cover_all_rejection_shapes() {
    for chunk in [
        "false",
        r#"{"choices": false}"#,
        r#"{"choices": [false]}"#,
        r#"{"choices": [{"index": "zero"}]}"#,
        r#"{"choices": [{"finish_reason": false}]}"#,
        r#"{"choices": [{"delta": false}]}"#,
        r#"{"choices": [{"logprobs": {}}]}"#,
        r#"{"choices": [{"extension": true}]}"#,
        r#"{"choices": [{"delta": {"tool_calls": [false]}}]}"#,
        r#"{"choices": [{"delta": {"tool_calls": [{"index": "zero"}]}}]}"#,
        r#"{"choices": [{"delta": {"tool_calls": [{"id": false}]}}]}"#,
        r#"{"choices": [{"delta": {"tool_calls": [{"function": false}]}}]}"#,
        r#"{"choices": [{"delta": {"tool_calls": [{"extension": true}]}}]}"#,
    ] {
        assert!(chunk_has_uncollected_response_fields(&json(chunk)), "{chunk}");
    }
    assert!(!chunk_has_uncollected_response_fields(&json(r#"{"choices": null, "metadata": null}"#)));

    assert!(aggregate_replay_lossy(&json(r#"{"content": [{"type": "thinking"}]}"#)));
    assert!(aggregate_replay_lossy(&json(r#"{"choices": [{"message": {"content": null, "tool_calls": []}}]}"#)));
    assert!(!aggregate_replay_lossy(&json(r#"{"choices": [{"message": {"content": "answer"}}]}"#)));

    let mut completion = StreamCompletion::new();
    completion.observe(&json(
        r#"{"choices": [{"index": 0, "finish_reason": "stop"}, {"index": 1, "finish_reason": null}]}"#,
    ));
    assert!(!completion.is_terminal());
    completion.observe(&json(r#"{"choices": [{"index": 1, "finish_reason": "stop"}]}"#));
    assert!(completion.is_terminal());

    let mut stopped = StreamCompletion::new();
    stopped.observe(&json(r#"{"type": "response.completed"}"#));
    assert!(stopped.is_terminal());

    assert!(chunk_is_inband_error(&json(r#"{"error": "bad"}"#)));
    assert!(chunk_is_inband_error(&json(r#"{"type": "response.failed"}"#)));
    assert!(!chunk_is_inband_error(&json(r#"{"error": null}"#)));
    assert!(aggregate_has_no_content(&json("{}")));
    assert!(!aggregate_has_no_content(&json(r#"{"output": [1]}"#)));

    assert!(!is_error_response(&json("false")));
    assert!(is_error_response(&json(r#"{"error": "bad"}"#)));
    for status in ["failed", "cancelled", "canceled", "incomplete", "in_progress", "queued"] {
        assert!(is_error_response(&json(&format!(r#"{{"status": "{status}"}}"#))));
    }
    assert!(!is_error_response(&json(r#"{"status": "completed"}"#)));
    let unit = unit_sample(next_rng_state(rng_seed(12345)));
    assert!(unit < 1 << 53, "{unit}");
}

#[test]
fn conventional_tool_error_detection_is_deliberately_narrow() {
    assert!(is_error_shaped_tool_result(&json(r#"{"error": "upstream unavailable"}"#)));
    assert!(is_error_shaped_tool_result(&json(r#"{"isError": true}"#)));
    assert!(is_error_shaped_tool_result(&json(r#"{"is_error": true}"#)));
    assert!(!is_error_shaped_tool_result(&json(r#"{"error": null}"#)));
    assert!(!is_error_shaped_tool_result(&json(r#"{"status": "failed"}"#)));
    assert!(!is_error_shaped_tool_result(&json(r#""error""#)));
}

#[test]
fn backend_byte_budget_reads_max_bytes_or_defaults() {
    assert_eq!(DEFAULT_MAX_BYTES, 256 * 1024 * 1024);
    assert_eq!(backend_max_bytes(&Vec::new()), 268435456);
    let set = vec![
        ("other".to_string(), Json::Bool(true)),
        ("max_bytes".to_string(), Json::Number(JsonNumber::PosInt(1024))),
    ];
    assert_eq!(backend_max_bytes(&set), 1024);
    let negative = vec![("max_bytes".to_string(), Json::Number(JsonNumber::NegInt(-5)))];
    assert_eq!(backend_max_bytes(&negative), 268435456);
    let text = vec![("max_bytes".to_string(), Json::String("1024".to_string()))];
    assert_eq!(backend_max_bytes(&text), 268435456);
}
