use base64::Engine;
use relay_gateway::crypto::{sha256_new, sha256_update};
use relay_gateway::errors::PluginLifecycleFailureKind;
use relay_gateway::plugin_policy::{
    effect_from_file, evaluate_dynamic_plugin_host_policy, policy_from_file, rule_from_file,
    DynamicPluginAttestationMode, DynamicPluginCheckState, DynamicPluginHostPolicyEffect,
    DynamicPluginStartupClass,
};
use relay_gateway::plugin_render::{
    column_width, host_config_label, lifecycle_state_label, list_validation_state, plugin_exit_code,
    plugin_refused, render_plugin_list, render_validation_summary, PluginListRow, PluginValidation,
    ValidationSummary,
};
use relay_gateway::plugin_trust::{
    artifact_digest_text, check_integrity, decode_signature_text, parse_ed25519_public_key,
    require_trusted_keys, verify_signature_with_keys, DynamicPluginTrustFailure,
};

fn effect(allowed: Option<bool>, startup: Option<DynamicPluginStartupClass>) -> DynamicPluginHostPolicyEffect {
    effect_from_file(allowed, startup, None, None)
}

#[test]
fn host_policy_layers_defaults_rules_and_overrides() {
    let policy = policy_from_file(
        effect(None, Some(DynamicPluginStartupClass::Required)),
        vec![
            rule_from_file(Some("worker".to_string()), None, effect(Some(false), None)),
            rule_from_file(None, Some(" trusted ".to_string()), effect(Some(true), None)),
        ],
        vec![(" pinned ".to_string(), effect_from_file(None, None, Some(DynamicPluginAttestationMode::SignatureRequired), Some(vec![" ed25519:AAAA ".to_string()])))],
    );
    let native = evaluate_dynamic_plugin_host_policy(&policy, "any", "rust_dynamic");
    assert!(native.policy_satisfied);
    assert_eq!(native.startup_class, DynamicPluginStartupClass::Required);
    assert_eq!(native.attestation_mode, DynamicPluginAttestationMode::IntegrityOnly);

    let worker = evaluate_dynamic_plugin_host_policy(&policy, "any", "worker");
    assert!(!worker.policy_satisfied);
    assert_eq!(worker.check_state(), DynamicPluginCheckState::Invalid);
    let failure = worker.last_error("any").unwrap();
    assert_eq!(failure.code, "policy_blocked");
    assert_eq!(failure.message, "dynamic plugin 'any' is blocked by host policy");

    let trusted = evaluate_dynamic_plugin_host_policy(&policy, "trusted", "worker");
    assert!(trusted.policy_satisfied, "a later matching rule overrides an earlier one");

    let pinned = evaluate_dynamic_plugin_host_policy(&policy, " pinned", "rust_dynamic");
    assert_eq!(pinned.attestation_mode, DynamicPluginAttestationMode::SignatureRequired);
    assert_eq!(pinned.trusted_public_keys, vec!["ed25519:AAAA".to_string()]);
}

#[test]
fn trust_failures_render_their_codes_and_messages() {
    let mismatch = DynamicPluginTrustFailure::IntegrityMismatch {
        path: "/p/a.py".to_string(),
        expected: "sha256:00".to_string(),
        actual: "sha256:11".to_string(),
    };
    assert_eq!(mismatch.refusal_code(), "integrity_failed");
    assert_eq!(
        mismatch.display("demo"),
        "dynamic plugin 'demo' failed integrity verification for /p/a.py: expected sha256:00, got sha256:11"
    );
    let verification = DynamicPluginTrustFailure::SignatureVerification {
        path: "/p/a.sig".to_string(),
        parse_errors: vec!["e1".to_string(), "e2".to_string()],
    };
    assert_eq!(verification.refusal_code(), "attestation_failed");
    assert_eq!(
        verification.display("demo"),
        "dynamic plugin 'demo' failed signature verification for /p/a.sig against configured host policy keys; key parse errors: e1; e2"
    );
    assert_eq!(
        DynamicPluginTrustFailure::MissingTrustedKeys.display("demo"),
        "dynamic plugin 'demo' requires signature verification, but no trusted_public_keys are configured in host policy"
    );
}

#[test]
fn integrity_compares_the_prefixed_artifact_digest() {
    let mut hasher = sha256_new();
    sha256_update(&mut hasher, b"abc");
    let digest = artifact_digest_text(hasher);
    assert_eq!(digest, "sha256:ba7816bf8f01cfea414140de5dae2223b00361a396177a9cb410ff61f20015ad");
    assert!(check_integrity("/a", &digest, Ok(digest.clone())).is_ok());
    assert!(matches!(check_integrity("/a", "sha256:00", Ok(digest)), Err(DynamicPluginTrustFailure::IntegrityMismatch { .. })));
    assert!(matches!(check_integrity("/a", "sha256:00", Err("gone".to_string())), Err(DynamicPluginTrustFailure::ArtifactRead { .. })));
}

fn hex(text: &str) -> Vec<u8> {
    (0..text.len()).step_by(2).map(|i| u8::from_str_radix(&text[i..i + 2], 16).unwrap()).collect()
}

#[test]
fn signatures_verify_against_any_trusted_key() {
    let engine = base64::engine::general_purpose::STANDARD;
    let public_key = hex("d75a980182b10ab7d54bfed3c964073a0ee172f3daa62325af021a68f707511a");
    let signature = hex("e5564300c360ac729086e2cc806e828a84877f1eb8e5d974d873e065224901555fb8821590a33bacc61e39701cf9b46bd25bf5f0595bbe24655141438e7a100b");
    let key = format!("ed25519:{}", engine.encode(&public_key));
    assert_eq!(parse_ed25519_public_key(&format!(" {key} ")).unwrap(), public_key);
    assert!(matches!(parse_ed25519_public_key("rsa:AAAA"), Err(DynamicPluginTrustFailure::InvalidTrustedKey { .. })));
    assert!(require_trusted_keys(&vec![]).is_err());

    let decoded = decode_signature_text("/a.sig", &format!("  ed25519:{} \n", engine.encode(&signature))).unwrap();
    assert_eq!(decoded, signature);
    assert!(matches!(decode_signature_text("/a.sig", "  "), Err(DynamicPluginTrustFailure::SignatureRead { .. })));

    assert!(verify_signature_with_keys("/a.sig", &signature, b"", &vec!["bad".to_string(), key.clone()]).is_ok());
    match verify_signature_with_keys("/a.sig", &signature, b"tampered", &vec!["bad".to_string(), key]) {
        Err(DynamicPluginTrustFailure::SignatureVerification { path, parse_errors }) => {
            assert_eq!(path, "/a.sig");
            assert_eq!(parse_errors, vec!["unsupported trusted public key format 'bad'".to_string()]);
        }
        _ => panic!("expected a verification failure"),
    }
}

#[test]
fn lifecycle_errors_map_to_exit_codes() {
    assert_eq!(plugin_exit_code(PluginLifecycleFailureKind::Failed), 1);
    assert_eq!(plugin_exit_code(PluginLifecycleFailureKind::NotFound), 2);
    assert_eq!(plugin_exit_code(PluginLifecycleFailureKind::Refused), 3);
    assert_eq!(plugin_refused("enable", None, "no".to_string()).message(), "no");
}

#[test]
fn list_validation_prefers_invalid_then_unknown() {
    let (invalid, unknown, valid) = (DynamicPluginCheckState::Invalid, DynamicPluginCheckState::Unknown, DynamicPluginCheckState::Valid);
    let all = |s| PluginValidation { manifest: s, compatibility: s, integrity: s, environment: s, authenticity: s, policy_satisfied: s };
    assert_eq!(list_validation_state(&all(valid)), valid);
    let mut v = all(valid);
    v.environment = invalid;
    v.manifest = unknown;
    assert_eq!(list_validation_state(&v), invalid);
    let mut v = all(valid);
    v.compatibility = unknown;
    assert_eq!(list_validation_state(&v), unknown);
    let mut v = all(valid);
    v.integrity = unknown;
    assert_eq!(list_validation_state(&v), valid);
    assert_eq!(lifecycle_state_label(true, "running"), "tombstoned");
    assert_eq!(lifecycle_state_label(false, "running"), "running");
    assert_eq!(host_config_label(None), "absent");
    assert_eq!(column_width("ID", &vec!["abc", "a"]), 3);
}

#[test]
fn plugin_lists_align_their_columns() {
    let rows = vec![PluginListRow {
        id: "demo.plugin".to_string(),
        scope: "user".to_string(),
        enabled: true,
        state: "running".to_string(),
        validation: "valid".to_string(),
        policy: "valid".to_string(),
        host_config: "absent".to_string(),
    }];
    assert_eq!(
        render_plugin_list(&rows),
        "ID          SCOPE ENABLED STATE   VALIDATION POLICY HOST CONFIG\ndemo.plugin user  true    running valid      valid  absent"
    );
}

#[test]
fn validation_summaries_lead_with_the_verdict() {
    let summary = ValidationSummary {
        plugin_id: "demo".to_string(),
        kind: "worker".to_string(),
        manifest_ref: "/p/manifest.yaml".to_string(),
        policy_satisfied: true,
        trust_satisfied: false,
        environment: DynamicPluginCheckState::Unknown,
        policy_state: "valid".to_string(),
        integrity_state: "invalid".to_string(),
        environment_state: "unknown".to_string(),
        authenticity_state: "unknown".to_string(),
        startup_class: "optional".to_string(),
        attestation_mode: "integrity_only".to_string(),
        policy_error: None,
        trust_error: Some("bad digest".to_string()),
        entry: None,
    };
    let text = render_validation_summary(&summary);
    assert!(text.starts_with("Dynamic plugin 'demo' manifest is valid, but trust verification blocks it.\nkind: worker\n"));
    assert!(text.contains("\ntrust_error: bad digest\n"));
    assert!(text.ends_with("manifest: /p/manifest.yaml"));
}
