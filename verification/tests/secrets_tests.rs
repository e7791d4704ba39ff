use relay_gateway::json::{Json, JsonNumber};
use relay_gateway::secrets::{
    collect_string_values, escape_pointer, next_secret_token, pattern_matches, push_pointer,
    restore_secret_tokens, SecretEditValue, SecretEditValues, SecretInstanceSegment, SecretPattern,
    SecretPropertyPattern, SecretSegment, SecretUnmatchedProperties,
};

fn to_json(value: &serde_json::Value) -> Json {
    match value {
        serde_json::Value::Null => Json::Null,
        serde_json::Value::Bool(b) => Json::Bool(*b),
        serde_json::Value::Number(n) => {
            if let Some(u) = n.as_u64() {
                Json::Number(JsonNumber::PosInt(u))
            } else if let Some(i) = n.as_i64() {
                Json::Number(JsonNumber::NegInt(i))
            } else {
                Json::Number(JsonNumber::Float(n.as_f64().unwrap_or_default().to_bits()))
            }
        }
        serde_json::Value::String(s) => Json::String(s.clone()),
        serde_json::Value::Array(items) => Json::Array(items.iter().map(to_json).collect()),
        serde_json::Value::Object(members) => {
            Json::Object(members.iter().map(|(k, v)| (k.clone(), to_json(v))).collect())
        }
    }
}

fn json(text: &str) -> Json {
    to_json(&serde_json::from_str(text).expect("test JSON parses"))
}

fn property(name: &str) -> SecretSegment {
    SecretSegment::Property(name.to_string())
}

fn pattern(source: &str) -> SecretPropertyPattern {
    SecretPropertyPattern::new(source.to_string()).expect("test pattern compiles")
}

const PREFIX: &str = "<secret:";

#[test]
fn property_patterns_search_names_with_the_regex_crate() {
    assert!(SecretPropertyPattern::new("([".to_string()).is_err());
    assert!(pattern_matches(&pattern("^api_"), "api_key"));
    assert!(!pattern_matches(&pattern("^api_"), "my_api_key"));
    assert!(pattern_matches(&pattern("key"), "my_api_key"));
}

#[test]
fn unmatched_properties_exclude_named_and_patterned_ones() {
    let selector = SecretUnmatchedProperties {
        properties: vec!["name".to_string(), "url".to_string()],
        patterns: vec![pattern("^x-")],
    };
    assert!(selector.matches("token"));
    assert!(!selector.matches("name"));
    assert!(!selector.matches("x-header"));
}

#[test]
fn secret_patterns_apply_below_schema_paths() {
    let p = SecretPattern(vec![property("auth"), SecretSegment::Tail(1), SecretSegment::Any]);
    assert!(p.applies_below(&vec!["auth".to_string()]));
    assert!(p.applies_below(&vec!["auth".to_string(), "1".to_string(), "key".to_string()]));
    assert!(!p.applies_below(&vec!["auth".to_string(), "0".to_string()]));
    assert!(!p.applies_below(&vec!["auth".to_string(), "x".to_string()]));
    assert!(!p.applies_below(&vec!["auth".to_string(), "1".to_string(), "a".to_string(), "b".to_string()]));
    let q = SecretPattern(vec![SecretSegment::Index(2)]);
    assert!(q.applies_below(&vec!["2".to_string()]));
    assert!(q.applies_below(&vec!["+2".to_string()]));
    assert!(!q.applies_below(&vec!["3".to_string()]));
}

#[test]
fn secret_patterns_match_concrete_locations_exactly() {
    let p = SecretPattern(vec![property("servers"), SecretSegment::Any, property("token")]);
    let at = |steps: Vec<SecretInstanceSegment>| p.matches_instance_path(&steps);
    assert!(at(vec![
        SecretInstanceSegment::Property("servers".to_string()),
        SecretInstanceSegment::Index(3),
        SecretInstanceSegment::Property("token".to_string()),
    ]));
    assert!(!at(vec![
        SecretInstanceSegment::Property("servers".to_string()),
        SecretInstanceSegment::Index(3),
    ]));
    assert!(!at(vec![
        SecretInstanceSegment::Property("servers".to_string()),
        SecretInstanceSegment::Index(3),
        SecretInstanceSegment::Index(0),
    ]));
}

#[test]
fn pointer_tokens_escape_tilde_and_slash() {
    assert_eq!(escape_pointer("a~b/c"), "a~0b~1c");
    assert_eq!(push_pointer("/root", "x/y"), "/root/x~1y");
}

#[test]
fn string_values_are_collected_at_every_depth() {
    let mut out = vec!["seed".to_string()];
    collect_string_values(&json(r#"{"a":"x","b":[1,"y",{"c":"z"}],"d":null}"#), &mut out);
    assert_eq!(out, vec!["seed", "x", "y", "z"]);
}

#[test]
fn redaction_hides_values_but_not_nulls() {
    let p = SecretPattern(vec![property("servers"), SecretSegment::Any, property("token")]);
    let mut value = json(r#"{"servers":[{"token":"t1","name":"a"},{"token":null},{"token":7}],"token":"top"}"#);
    p.redact(&mut value, 0, "<redacted>");
    assert!(relay_gateway::json::json_eq(
        &value,
        &json(r#"{"servers":[{"token":"<redacted>","name":"a"},{"token":null},{"token":"<redacted>"}],"token":"top"}"#)
    ));
}

#[test]
fn redaction_follows_patterns_indexes_and_tails() {
    let p = SecretPattern(vec![SecretSegment::Pattern(pattern("^key")), SecretSegment::Tail(1)]);
    let mut value = json(r#"{"key_a":[1,2,3],"other":[1,2],"key_b":"x"}"#);
    p.redact(&mut value, 0, "*");
    assert!(relay_gateway::json::json_eq(&value, &json(r#"{"key_a":[1,"*","*"],"other":[1,2],"key_b":"x"}"#)));
}

#[test]
fn edit_tokens_skip_tokens_in_use() {
    let secrets = SecretEditValues {
        entries: vec![(
            "<secret:0>".to_string(),
            SecretEditValue { value: Json::Null, pattern: SecretPattern(vec![]) },
        )],
    };
    let occupied = vec!["<secret:1>".to_string()];
    let mut next = 0usize;
    assert_eq!(next_secret_token(&secrets, &occupied, &mut next, PREFIX), "<secret:2>");
    assert_eq!(next, 3);
    assert_eq!(next_secret_token(&secrets, &occupied, &mut next, PREFIX), "<secret:3>");
    assert_eq!(next, 4);
}

#[test]
fn an_unchanged_edit_restores_every_hidden_value() {
    let p = SecretPattern(vec![property("servers"), SecretSegment::Any, property("token")]);
    let original = json(r#"{"servers":[{"token":"t1"},{"token":null},{"token":{"nested":true}}]}"#);
    let mut value = relay_gateway::json::json_clone(&original);
    let mut secrets = SecretEditValues { entries: vec![] };
    let mut next = 0usize;
    p.redact_for_edit(&mut value, 0, &mut secrets, &vec![], &mut next, PREFIX);
    assert!(relay_gateway::json::json_eq(
        &value,
        &json(r#"{"servers":[{"token":"<secret:0>"},{"token":null},{"token":"<secret:1>"}]}"#)
    ));
    assert_eq!(secrets.entries.len(), 2);
    let restored = restore_secret_tokens(&value, &secrets).unwrap();
    assert!(relay_gateway::json::json_eq(&restored, &original));
}

#[test]
fn values_that_already_are_tokens_are_not_tokenized_again() {
    let p = SecretPattern(vec![property("token")]);
    let mut secrets = SecretEditValues { entries: vec![] };
    let mut next = 0usize;
    let mut value = json(r#"{"token":"hidden"}"#);
    p.redact_for_edit(&mut value, 0, &mut secrets, &vec![], &mut next, PREFIX);
    p.redact_for_edit(&mut value, 0, &mut secrets, &vec![], &mut next, PREFIX);
    assert_eq!(secrets.entries.len(), 1);
    assert!(relay_gateway::json::json_eq(&value, &json(r#"{"token":"<secret:0>"}"#)));
}

#[test]
fn tokens_may_not_move_or_repeat() {
    let p = SecretPattern(vec![property("token")]);
    let mut secrets = SecretEditValues { entries: vec![] };
    let mut next = 0usize;
    let mut value = json(r#"{"token":"hidden"}"#);
    p.redact_for_edit(&mut value, 0, &mut secrets, &vec![], &mut next, PREFIX);
    assert_eq!(
        restore_secret_tokens(&json(r#"{"other":"<secret:0>"}"#), &secrets).unwrap_err(),
        "token '<secret:0>' may only appear at its original schema-declared secret location"
    );
    assert_eq!(
        restore_secret_tokens(&json(r#"[{"token":"<secret:0>"}]"#), &secrets).unwrap_err(),
        "token '<secret:0>' may only appear at its original schema-declared secret location"
    );
    let q = SecretPattern(vec![SecretSegment::Any]);
    let mut s2 = SecretEditValues { entries: vec![] };
    let mut n2 = 0usize;
    let mut v2 = json(r#"["x"]"#);
    q.redact_for_edit(&mut v2, 0, &mut s2, &vec![], &mut n2, PREFIX);
    assert_eq!(
        restore_secret_tokens(&json(r#"["<secret:0>","<secret:0>"]"#), &s2).unwrap_err(),
        "token '<secret:0>' may only appear once"
    );
    let edited = restore_secret_tokens(&json(r#"{"token":"new value"}"#), &secrets).unwrap();
    assert!(relay_gateway::json::json_eq(&edited, &json(r#"{"token":"new value"}"#)));
}

#[test]
fn an_unchanged_edit_restores_around_token_shaped_texts() {
    let p = SecretPattern(vec![property("token")]);
    let original = json(r#"{"note":"<secret:0>","token":"hidden"}"#);
    let mut occupied: Vec<String> = Vec::new();
    collect_string_values(&original, &mut occupied);
    let mut value = relay_gateway::json::json_clone(&original);
    let mut secrets = SecretEditValues { entries: vec![] };
    let mut next = 0usize;
    p.redact_for_edit(&mut value, 0, &mut secrets, &occupied, &mut next, PREFIX);
    assert!(relay_gateway::json::json_eq(
        &value,
        &json(r#"{"note":"<secret:0>","token":"<secret:1>"}"#)
    ));
    let restored = restore_secret_tokens(&value, &secrets).unwrap();
    assert!(relay_gateway::json::json_eq(&restored, &original));
}

#[test]
fn documents_without_tokens_are_restored_unchanged() {
    let p = SecretPattern(vec![property("token")]);
    let mut redacted = json(r#"{"token":"hidden"}"#);
    let mut secrets = SecretEditValues { entries: vec![] };
    let mut next = 0usize;
    p.redact_for_edit(&mut redacted, 0, &mut secrets, &vec![], &mut next, PREFIX);
    let untouched = json(r#"{"a":["x",{"b":"y"}],"token":"replaced by the user","n":null}"#);
    let restored = restore_secret_tokens(&untouched, &secrets).unwrap();
    assert!(relay_gateway::json::json_eq(&restored, &untouched));
}
