use relay_gateway::plugin_policy::DynamicPluginCheckState;
use relay_gateway::plugin_trust::{
    trust_after_authenticity, trust_after_integrity, trust_start, DynamicPluginTrustFailure, TrustNext,
};

#[test]
fn refused_policy_leaves_trust_unevaluated() {
    match trust_start(false) {
        TrustNext::Done(trust) => {
            assert_eq!(trust.integrity, DynamicPluginCheckState::Unknown);
            assert_eq!(trust.authenticity, DynamicPluginCheckState::Unknown);
            assert!(trust.failure.is_none());
        }
        _ => panic!("expected evaluation to end"),
    }
    assert!(matches!(trust_start(true), TrustNext::CheckIntegrity));
}

#[test]
fn failed_integrity_leaves_authenticity_unknown() {
    match trust_after_integrity(Err(DynamicPluginTrustFailure::MissingIntegrityDigest)) {
        TrustNext::Done(trust) => {
            assert_eq!(trust.integrity, DynamicPluginCheckState::Invalid);
            assert_eq!(trust.authenticity, DynamicPluginCheckState::Unknown);
            assert!(matches!(trust.failure, Some(DynamicPluginTrustFailure::MissingIntegrityDigest)));
            assert_eq!(trust.refusal_code(), Some("integrity_failed"));
        }
        _ => panic!("expected evaluation to end"),
    }
    assert!(matches!(trust_after_integrity(Ok(())), TrustNext::CheckAuthenticity));
}

#[test]
fn authenticity_follows_verified_integrity() {
    let trust = trust_after_authenticity(Ok(DynamicPluginCheckState::Unknown));
    assert_eq!(trust.integrity, DynamicPluginCheckState::Valid);
    assert_eq!(trust.authenticity, DynamicPluginCheckState::Unknown);
    assert!(trust.is_satisfied());
    let trust = trust_after_authenticity(Err(DynamicPluginTrustFailure::MissingSignature));
    assert_eq!(trust.integrity, DynamicPluginCheckState::Valid);
    assert_eq!(trust.authenticity, DynamicPluginCheckState::Invalid);
    assert_eq!(trust.refusal_code(), Some("attestation_failed"));
}
