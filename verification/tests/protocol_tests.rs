use relay_gateway::crypto::{base64_decode, ed25519_verify, hex_string, sha256_bytes};
use relay_gateway::decimal::{decimal_string, parse_u64, parse_usize};
use relay_gateway::hooks::{merge_hooks, resolve_hook_destination, HookGatewayLifecycle};
use relay_gateway::json::{json_eq, Json, JsonNumber};
use relay_gateway::mcp_protocol::{evaluate_frame, frame_step, jsonrpc_error, response_for, valid_request_id, FrameStep};
use relay_gateway::text::trim;

fn to_json(value: &serde_json::Value) -> Json {
    match value {
        serde_json::Value::Null => Json::Null,
        serde_json::Value::Bool(b) => Json::Bool(*b),
        serde_json::Value::Number(n) => {
            if let Some(u) = n.as_u64() {
                Json::Number(JsonNumber::PosInt(u))
            } else if let Some(i) = n.as_i64() {
                Json::Number(JsonNumber::NegInt(i))
            } else {
                Json::Number(JsonNumber::Float(n.as_f64().unwrap_or_default().to_bits()))
            }
        }
        serde_json::Value::String(s) => Json::String(s.clone()),
        serde_json::Value::Array(items) => Json::Array(items.iter().map(to_json).collect()),
        serde_json::Value::Object(members) => {
            Json::Object(members.iter().map(|(k, v)| (k.clone(), to_json(v))).collect())
        }
    }
}

fn json(text: &str) -> Json {
    to_json(&serde_json::from_str(text).expect("test JSON parses"))
}

fn same(a: &Json, text: &str) -> bool {
    let sorted_a = relay_gateway::canonical::sort_value(a);
    let sorted_b = relay_gateway::canonical::sort_value(&json(text));
    json_eq(&sorted_a, &sorted_b)
}

fn respond(text: &str) -> Option<Json> {
    response_for(&json(text), "1.0.0")
}

#[test]
fn initialize_negotiates_a_supported_protocol_version() {
    let r = respond(r#"{"jsonrpc":"2.0","id":1,"method":"initialize","params":{"protocolVersion":"2025-06-18"}}"#).unwrap();
    assert!(same(
        &r,
        r#"{"jsonrpc":"2.0","id":1,"result":{"protocolVersion":"2025-06-18","capabilities":{},"serverInfo":{"name":"nemo-relay","version":"1.0.0"}}}"#
    ));
    let r = respond(r#"{"jsonrpc":"2.0","id":"a","method":"initialize","params":{"protocolVersion":"1999-01-01"}}"#).unwrap();
    assert_eq!(r.get("result").unwrap().get_str("protocolVersion").unwrap(), "2025-11-25");
    let r = respond(r#"{"jsonrpc":"2.0","id":2,"method":"initialize","params":{}}"#).unwrap();
    assert!(same(&r, r#"{"jsonrpc":"2.0","id":2,"error":{"code":-32602,"message":"Missing protocolVersion"}}"#));
}

#[test]
fn requests_are_answered_with_their_id_and_notifications_are_not() {
    assert!(same(&respond(r#"{"jsonrpc":"2.0","id":3,"method":"ping"}"#).unwrap(), r#"{"jsonrpc":"2.0","id":3,"result":{}}"#));
    assert!(same(&respond(r#"{"jsonrpc":"2.0","id":4,"method":"tools/list"}"#).unwrap(), r#"{"jsonrpc":"2.0","id":4,"result":{"tools":[]}}"#));
    assert!(same(
        &respond(r#"{"jsonrpc":"2.0","id":5,"method":"other"}"#).unwrap(),
        r#"{"jsonrpc":"2.0","id":5,"error":{"code":-32601,"message":"Method not found"}}"#
    ));
    assert!(respond(r#"{"jsonrpc":"2.0","method":"notifications/initialized"}"#).is_none());
}

#[test]
fn malformed_messages_are_invalid_requests() {
    let invalid = r#"{"jsonrpc":"2.0","id":null,"error":{"code":-32600,"message":"Invalid Request"}}"#;
    assert!(same(&respond(r#"[1]"#).unwrap(), invalid));
    assert!(same(&respond(r#"{"id":7,"method":"ping"}"#).unwrap(), r#"{"jsonrpc":"2.0","id":7,"error":{"code":-32600,"message":"Invalid Request"}}"#));
    assert!(same(&respond(r#"{"jsonrpc":"2.0","id":1.5,"method":"ping"}"#).unwrap(), invalid));
    assert!(same(&respond(r#"{"jsonrpc":"2.0","id":8}"#).unwrap(), r#"{"jsonrpc":"2.0","id":8,"error":{"code":-32600,"message":"Invalid Request"}}"#));
    assert!(same(&evaluate_frame(None, "1.0.0").unwrap(), r#"{"jsonrpc":"2.0","id":null,"error":{"code":-32700,"message":"Parse error"}}"#));
    assert!(valid_request_id(&json("-3")));
    assert!(valid_request_id(&json(r#""x""#)));
    assert!(!valid_request_id(&json("true")));
    assert!(same(&jsonrpc_error(json("1"), -1, "m"), r#"{"jsonrpc":"2.0","id":1,"error":{"code":-1,"message":"m"}}"#));
}

#[test]
fn frames_end_at_newlines_within_the_limit() {
    assert!(matches!(frame_step(0, b"", 10), FrameStep::End));
    assert!(matches!(frame_step(0, b"ab\ncd", 10), FrameStep::Take { consumed: 3, complete: true }));
    assert!(matches!(frame_step(0, b"abcd", 10), FrameStep::Take { consumed: 4, complete: false }));
    assert!(matches!(frame_step(8, b"abcd", 10), FrameStep::TooLarge));
}

#[test]
fn hook_merging_is_idempotent_and_keeps_existing_groups() {
    let generated = json(r#"{"hooks":{"PreToolUse":[{"command":"relay hook"}]}}"#);
    let existing = json(r#"{"theme":"dark","hooks":{"PreToolUse":[{"command":"mine"}]}}"#);
    let once = merge_hooks(existing, relay_gateway::json::json_clone(&generated)).unwrap();
    assert!(same(&once, r#"{"theme":"dark","hooks":{"PreToolUse":[{"command":"mine"},{"command":"relay hook"}]}}"#));
    let twice = merge_hooks(relay_gateway::json::json_clone(&once), generated).unwrap();
    assert!(json_eq(&once, &twice));
    let fresh = merge_hooks(Json::Null, json(r#"{"hooks":{"Stop":[1]}}"#)).unwrap();
    assert!(same(&fresh, r#"{"hooks":{"Stop":[1]}}"#));
}

#[test]
fn hook_merging_refuses_malformed_configuration() {
    assert_eq!(merge_hooks(json("[]"), json(r#"{"hooks":{}}"#)).err().unwrap().message(), "hook config must be a JSON object");
    assert_eq!(merge_hooks(json(r#"{"hooks":1}"#), json(r#"{"hooks":{}}"#)).err().unwrap().message(), "hooks must be a JSON object");
    assert_eq!(merge_hooks(Json::Null, json("{}")).err().unwrap().message(), "generated hooks were malformed");
    assert_eq!(merge_hooks(Json::Null, json(r#"{"hooks":{"Stop":1}}"#)).err().unwrap().message(), "generated hook groups were malformed");
    assert_eq!(merge_hooks(json(r#"{"hooks":{"Stop":1}}"#), json(r#"{"hooks":{"Stop":[1]}}"#)).err().unwrap().message(), "Stop hooks must be an array");
}

#[test]
fn hook_destinations_prefer_explicit_then_environment_urls() {
    let d = resolve_hook_destination(Some("http://a".to_string()), Some("http://b".to_string()), false, false, "http://default");
    assert_eq!(d.gateway_url, "http://a");
    let d = resolve_hook_destination(None, Some("http://b".to_string()), false, true, "http://default");
    assert_eq!((d.gateway_url.as_str(), d.lifecycle), ("http://b", HookGatewayLifecycle::Transparent));
    let d = resolve_hook_destination(None, Some("http://b".to_string()), true, false, "http://default");
    assert_eq!((d.gateway_url.as_str(), d.lifecycle), ("http://default", HookGatewayLifecycle::Existing));
}

#[test]
fn sha256_matches_the_published_test_vector() {
    assert_eq!(
        hex_string(&sha256_bytes(b"abc")),
        "ba7816bf8f01cfea414140de5dae2223b00361a396177a9cb410ff61f20015ad"
    );
    assert_eq!(hex_string(&[0x00, 0xff, 0x10]), "00ff10");
}

#[test]
fn base64_decoding_uses_the_padded_standard_alphabet() {
    assert_eq!(base64_decode("aGVsbG8=").unwrap(), b"hello".to_vec());
    assert!(base64_decode("aGVsbG8").is_err());
    assert!(base64_decode("a$==").is_err());
}

#[test]
fn ed25519_accepts_the_rfc_8032_vector_and_rejects_tampering() {
    let public_key = hex("d75a980182b10ab7d54bfed3c964073a0ee172f3daa62325af021a68f707511a");
    let signature = hex("e5564300c360ac729086e2cc806e828a84877f1eb8e5d974d873e065224901555fb8821590a33bacc61e39701cf9b46bd25bf5f0595bbe24655141438e7a100b");
    assert!(ed25519_verify(&public_key, b"", &signature));
    assert!(!ed25519_verify(&public_key, b"x", &signature));
}

fn hex(text: &str) -> Vec<u8> {
    (0..text.len()).step_by(2).map(|i| u8::from_str_radix(&text[i..i + 2], 16).unwrap()).collect()
}

#[test]
fn decimals_read_and_write_like_the_standard_library() {
    assert_eq!(parse_usize("42"), Some(42));
    assert_eq!(parse_usize("+7"), Some(7));
    assert_eq!(parse_usize("-1"), None);
    assert_eq!(parse_usize(""), None);
    assert_eq!(parse_u64("18446744073709551615"), Some(u64::MAX));
    assert_eq!(parse_u64("18446744073709551616"), None);
    assert_eq!(decimal_string(0), "0");
    assert_eq!(decimal_string(1234567890), "1234567890");
    assert_eq!(trim("  \t x y \n"), "x y");
}

fn read_in_pieces(bytes: &[u8], piece: usize, limit: usize) -> Result<(Vec<u8>, usize), ()> {
    let mut frame = Vec::new();
    let mut at = 0;
    loop {
        let end = (at + piece).min(bytes.len());
        match frame_step(frame.len(), &bytes[at..end], limit) {
            FrameStep::End => return Ok((frame, at)),
            FrameStep::TooLarge => return Err(()),
            FrameStep::Take { consumed, complete } => {
                frame.extend_from_slice(&bytes[at..at + consumed]);
                at += consumed;
                if complete {
                    return Ok((frame, at));
                }
            }
        }
    }
}

#[test]
fn a_frame_reads_the_same_in_any_pieces() {
    for piece in 1..8 {
        assert_eq!(read_in_pieces(b"abc\ndef", piece, 10), Ok((b"abc\n".to_vec(), 4)));
        assert_eq!(read_in_pieces(b"abcdef", piece, 10), Ok((b"abcdef".to_vec(), 6)));
        assert_eq!(read_in_pieces(b"", piece, 10), Ok((Vec::new(), 0)));
        assert_eq!(read_in_pieces(b"abcdefghijk\n", piece, 10), Err(()));
        assert_eq!(read_in_pieces(b"abcdefghi\n", piece, 10), Ok((b"abcdefghi\n".to_vec(), 10)));
    }
}
