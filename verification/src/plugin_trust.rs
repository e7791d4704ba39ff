//! Trust verification of dynamic plugins: the artifact's integrity digest
//! and, as host policy demands, an Ed25519 signature over the artifact by
//! one of the trusted keys; and the refusal codes and messages of each
//! failure.
//!
//! Reading the artifact and signature files is left to the caller, which
//! hands the bytes (or the read error) to the checks here.

use vstd::prelude::*;
use vstd::string::StringExecFns;
use crate::crypto::{
    base64_decode, base64_decoded, ed25519_accepts, ed25519_verify, hasher_input, hex_text, push_hex,
    sha256_finalize, sha256_of, Sha256Hasher,
};
use crate::plugin_policy::{
    DynamicPluginAttestationMode, DynamicPluginCheckState, DynamicPluginFailure, DynamicPluginFailurePhase,
};
use crate::text::{has_prefix, str_is, strip_prefix, trim, trim_spec};

verus! {

/// Why a plugin failed trust verification. Paths are as displayed.
#[derive(Debug)]
pub enum DynamicPluginTrustFailure {
    MissingArtifact,
    MissingIntegrityDigest,
    ArtifactRead { path: String, error: String },
    IntegrityMismatch { path: String, expected: String, actual: String },
    MissingSignature,
    MissingTrustedKeys,
    SignatureRead { path: String, error: String },
    InvalidTrustedKey { key: String, error: String },
    SignatureVerification { path: String, parse_errors: Vec<String> },
}

/// `parts` joined with `separator`.
pub open spec fn joined(parts: Seq<Seq<char>>, separator: Seq<char>) -> Seq<char>
    decreases parts.len(),
{
    if parts.len() == 0 {
        Seq::empty()
    } else if parts.len() == 1 {
        parts[0]
    } else {
        joined(parts.drop_last(), separator) + separator + parts.last()
    }
}

pub open spec fn texts_of(v: Seq<String>) -> Seq<Seq<char>> {
    v.map_values(|s: String| s@)
}

/// The refusal code of a failure: integrity or attestation.
pub open spec fn refusal_code_of(f: DynamicPluginTrustFailure) -> Seq<char> {
    match f {
        DynamicPluginTrustFailure::MissingArtifact
        | DynamicPluginTrustFailure::MissingIntegrityDigest
        | DynamicPluginTrustFailure::ArtifactRead { .. }
        | DynamicPluginTrustFailure::IntegrityMismatch { .. } => "integrity_failed"@,
        _ => "attestation_failed"@,
    }
}

/// The message of a failure for the plugin `id`.
pub open spec fn trust_failure_text(f: DynamicPluginTrustFailure, id: Seq<char>) -> Seq<char> {
    let head = "dynamic plugin '"@ + id;
    match f {
        DynamicPluginTrustFailure::MissingArtifact =>
            head + "' is missing source.artifact required for integrity verification"@,
        DynamicPluginTrustFailure::MissingIntegrityDigest =>
            head + "' is missing integrity.sha256 required for host trust verification"@,
        DynamicPluginTrustFailure::ArtifactRead { path, error } =>
            head + "' artifact "@ + path@ + " could not be read for trust verification: "@ + error@,
        DynamicPluginTrustFailure::IntegrityMismatch { path, expected, actual } =>
            head + "' failed integrity verification for "@ + path@ + ": expected "@ + expected@ + ", got "@ + actual@,
        DynamicPluginTrustFailure::MissingSignature =>
            head + "' requires integrity.signature under host policy"@,
        DynamicPluginTrustFailure::MissingTrustedKeys =>
            head + "' requires signature verification, but no trusted_public_keys are configured in host policy"@,
        DynamicPluginTrustFailure::SignatureRead { path, error } =>
            head + "' signature "@ + path@ + " could not be read: "@ + error@,
        DynamicPluginTrustFailure::InvalidTrustedKey { key, error } =>
            head + "' has invalid trusted public key '"@ + key@ + "': "@ + error@,
        DynamicPluginTrustFailure::SignatureVerification { path, parse_errors } => {
            let base = head + "' failed signature verification for "@ + path@ + " against configured host policy keys"@;
            if parse_errors@.len() == 0 {
                base
            } else {
                base + "; key parse errors: "@ + joined(texts_of(parse_errors@), "; "@)
            }
        },
    }
}

/// Appends `parts` joined with `"; "`.
fn push_joined(out: &mut String, parts: &Vec<String>)
    ensures
        final(out)@ == old(out)@ + joined(texts_of(parts@), "; "@),
{
    let mut i: usize = 0;
    while i < parts.len()
        invariant
            i <= parts@.len(),
            out@ == old(out)@ + joined(texts_of(parts@.take(i as int)), "; "@),
        decreases parts.len() - i,
    {
        let ghost before = out@;
        assert(texts_of(parts@.take(i + 1)).drop_last() =~= texts_of(parts@.take(i as int)));
        if i > 0 {
            out.append("; ");
        }
        out.append(parts[i].as_str());
        proof {
            if i == 0 {
                assert(texts_of(parts@.take(1)).len() == 1);
                assert(joined(texts_of(parts@.take(i as int)), "; "@) =~= Seq::<char>::empty());
            }
        }
        assert(out@ =~= old(out)@ + joined(texts_of(parts@.take(i + 1)), "; "@));
        i = i + 1;
    }
    assert(parts@.take(parts@.len() as int) =~= parts@);
}

impl DynamicPluginTrustFailure {
    /// The refusal code this failure reports.
    pub fn refusal_code(&self) -> (code: &'static str)
        ensures
            code@ == refusal_code_of(*self),
    {
        match self {
            DynamicPluginTrustFailure::MissingArtifact
            | DynamicPluginTrustFailure::MissingIntegrityDigest
            | DynamicPluginTrustFailure::ArtifactRead { .. }
            | DynamicPluginTrustFailure::IntegrityMismatch { .. } => "integrity_failed",
            _ => "attestation_failed",
        }
    }

    /// The failure's message for the plugin `plugin_id`.
    pub fn display(&self, plugin_id: &str) -> (m: String)
        ensures
            m@ == trust_failure_text(*self, plugin_id@),
    {
        let mut m = "dynamic plugin '".to_owned();
        m.append(plugin_id);
        match self {
            DynamicPluginTrustFailure::MissingArtifact => {
                m.append("' is missing source.artifact required for integrity verification");
            },
            DynamicPluginTrustFailure::MissingIntegrityDigest => {
                m.append("' is missing integrity.sha256 required for host trust verification");
            },
            DynamicPluginTrustFailure::ArtifactRead { path, error } => {
                m.append("' artifact ");
                m.append(path.as_str());
                m.append(" could not be read for trust verification: ");
                m.append(error.as_str());
            },
            DynamicPluginTrustFailure::IntegrityMismatch { path, expected, actual } => {
                m.append("' failed integrity verification for ");
                m.append(path.as_str());
                m.append(": expected ");
                m.append(expected.as_str());
                m.append(", got ");
                m.append(actual.as_str());
            },
            DynamicPluginTrustFailure::MissingSignature => {
                m.append("' requires integrity.signature under host policy");
            },
            DynamicPluginTrustFailure::MissingTrustedKeys => {
                m.append("' requires signature verification, but no trusted_public_keys are configured in host policy");
            },
            DynamicPluginTrustFailure::SignatureRead { path, error } => {
                m.append("' signature ");
                m.append(path.as_str());
                m.append(" could not be read: ");
                m.append(error.as_str());
            },
            DynamicPluginTrustFailure::InvalidTrustedKey { key, error } => {
                m.append("' has invalid trusted public key '");
                m.append(key.as_str());
                m.append("': ");
                m.append(error.as_str());
            },
            DynamicPluginTrustFailure::SignatureVerification { path, parse_errors } => {
                m.append("' failed signature verification for ");
                m.append(path.as_str());
                m.append(" against configured host policy keys");
                if parse_errors.len() > 0 {
                    m.append("; key parse errors: ");
                    push_joined(&mut m, parse_errors);
                }
            },
        }
        m
    }
}

/// The outcome of trust verification.
pub struct EvaluatedDynamicPluginTrust {
    pub integrity: DynamicPluginCheckState,
    pub authenticity: DynamicPluginCheckState,
    pub failure: Option<DynamicPluginTrustFailure>,
}

impl EvaluatedDynamicPluginTrust {
    /// Trust not evaluated, because host policy refused the plugin.
    pub fn unevaluated() -> (t: Self)
        ensures
            t.integrity == DynamicPluginCheckState::Unknown,
            t.authenticity == DynamicPluginCheckState::Unknown,
            t.failure is None,
    {
        EvaluatedDynamicPluginTrust {
            integrity: DynamicPluginCheckState::Unknown,
            authenticity: DynamicPluginCheckState::Unknown,
            failure: None,
        }
    }

    /// Integrity verified; authenticity as given.
    pub fn valid(authenticity: DynamicPluginCheckState) -> (t: Self)
        ensures
            t.integrity == DynamicPluginCheckState::Valid,
            t.authenticity == authenticity,
            t.failure is None,
    {
        EvaluatedDynamicPluginTrust { integrity: DynamicPluginCheckState::Valid, authenticity, failure: None }
    }

    /// A failed verification.
    pub fn failed(
        integrity: DynamicPluginCheckState,
        authenticity: DynamicPluginCheckState,
        failure: DynamicPluginTrustFailure,
    ) -> (t: Self)
        ensures
            t.integrity == integrity,
            t.authenticity == authenticity,
            t.failure == Some(failure),
    {
        EvaluatedDynamicPluginTrust { integrity, authenticity, failure: Some(failure) }
    }

    /// The failure, if verification failed.
    pub fn failure(&self) -> (f: Option<&DynamicPluginTrustFailure>)
        ensures
            match f {
                Some(x) => self.failure == Some(*x),
                None => self.failure is None,
            },
    {
        match &self.failure {
            Some(f) => Some(f),
            None => None,
        }
    }

    /// The refusal code, if verification failed.
    pub fn refusal_code(&self) -> (code: Option<&'static str>)
        ensures
            match code {
                Some(c) => self.failure is Some && c@ == refusal_code_of(self.failure->0),
                None => self.failure is None,
            },
    {
        match &self.failure {
            Some(f) => Some(f.refusal_code()),
            None => None,
        }
    }

    /// Whether trust is satisfied: no failure.
    pub fn is_satisfied(&self) -> (ok: bool)
        ensures
            ok == (self.failure is None),
    {
        self.failure.is_none()
    }

    /// The failure to record for `plugin_id`, if verification failed.
    pub fn last_error(&self, plugin_id: &str) -> (f: Option<DynamicPluginFailure>)
        ensures
            match f {
                Some(x) => self.failure is Some && x.phase == DynamicPluginFailurePhase::Validation
                    && x.code@ == refusal_code_of(self.failure->0)
                    && x.message@ == trust_failure_text(self.failure->0, plugin_id@),
                None => self.failure is None,
            },
    {
        match &self.failure {
            Some(failure) => Some(DynamicPluginFailure {
                phase: DynamicPluginFailurePhase::Validation,
                code: failure.refusal_code().to_owned(),
                message: failure.display(plugin_id),
            }),
            None => None,
        }
    }
}

/// An optional manifest field, trimmed, when it is not blank.
pub open spec fn present(field: Option<Seq<char>>) -> Option<Seq<char>> {
    match field {
        Some(v) => if trim_spec(v).len() > 0 { Some(trim_spec(v)) } else { None },
        None => None,
    }
}

pub open spec fn opt_view(o: Option<&str>) -> Option<Seq<char>> {
    match o {
        Some(s) => Some(s@),
        None => None,
    }
}

/// A manifest field, trimmed, when present and not blank.
pub fn present_field(field: Option<&str>) -> (r: Option<&str>)
    ensures
        opt_view(r) == present(opt_view(field)),
{
    match field {
        Some(v) => {
            let t = trim(v);
            if t.unicode_len() > 0 { Some(t) } else { None }
        },
        None => None,
    }
}

/// What integrity verification needs from the manifest: the artifact
/// reference (untrimmed) and the expected digest (trimmed).
pub fn integrity_inputs<'a>(artifact: Option<&'a str>, sha256: Option<&'a str>) -> (r: Result<(&'a str, &'a str), DynamicPluginTrustFailure>)
    ensures
        match r {
            Ok((a, d)) => artifact == Some(a) && present(opt_view(sha256)) == Some(d@),
            Err(f) => (artifact is None && f is MissingArtifact)
                || (artifact is Some && present(opt_view(sha256)) is None && f is MissingIntegrityDigest),
        },
        r is Err <==> (artifact is None || present(opt_view(sha256)) is None),
{
    let a = match artifact {
        Some(a) => a,
        None => return Err(DynamicPluginTrustFailure::MissingArtifact),
    };
    match present_field(sha256) {
        Some(d) => Ok((a, d)),
        None => Err(DynamicPluginTrustFailure::MissingIntegrityDigest),
    }
}

/// The digest text of everything a hasher absorbed: `sha256:` and the
/// lowercase hex digest.
pub open spec fn digest_text(data: Seq<u8>) -> Seq<char> {
    "sha256:"@ + hex_text(sha256_of(data))
}

/// Finishes an artifact hash into its digest text.
pub fn artifact_digest_text(hasher: Sha256Hasher) -> (text: String)
    ensures
        text@ == digest_text(hasher_input(hasher)),
{
    let digest = sha256_finalize(hasher);
    let mut text = "sha256:".to_owned();
    push_hex(&mut text, digest.as_slice());
    text
}

/// Integrity verdict for the artifact at `path`: its read error, or a
/// digest that differs from the expected one, fails.
pub fn check_integrity(path: &str, expected: &str, actual: Result<String, String>) -> (r: Result<(), DynamicPluginTrustFailure>)
    ensures
        match actual {
            Err(e) => r matches Err(DynamicPluginTrustFailure::ArtifactRead { path: p, error }) && p@ == path@ && error@ == e@,
            Ok(d) => if d@ == expected@ {
                r is Ok
            } else {
                r matches Err(DynamicPluginTrustFailure::IntegrityMismatch { path: p, expected: x, actual: y })
                    && p@ == path@ && x@ == expected@ && y@ == d@
            },
        },
{
    match actual {
        Err(error) => Err(DynamicPluginTrustFailure::ArtifactRead { path: path.to_owned(), error }),
        Ok(digest) => {
            if str_is(digest.as_str(), expected) {
                Ok(())
            } else {
                Err(DynamicPluginTrustFailure::IntegrityMismatch {
                    path: path.to_owned(),
                    expected: expected.to_owned(),
                    actual: digest,
                })
            }
        },
    }
}

/// What authenticity verification does next.
pub enum AuthenticityPlan<'a> {
    /// Authenticity is decided without a signature.
    Decided(DynamicPluginCheckState),
    /// Verify the signature at this reference.
    Verify(&'a str),
    /// A required signature is missing.
    Refuse(DynamicPluginTrustFailure),
}

/// The plan for an attestation mode and the manifest's signature field.
pub fn authenticity_plan<'a>(mode: DynamicPluginAttestationMode, signature: Option<&'a str>) -> (plan: AuthenticityPlan<'a>)
    ensures
        match mode {
            DynamicPluginAttestationMode::IntegrityOnly => plan matches AuthenticityPlan::Decided(DynamicPluginCheckState::Unknown),
            DynamicPluginAttestationMode::SignatureIfPresent => match present(opt_view(signature)) {
                Some(s) => plan matches AuthenticityPlan::Verify(r) && r@ == s,
                None => plan matches AuthenticityPlan::Decided(DynamicPluginCheckState::Unknown),
            },
            DynamicPluginAttestationMode::SignatureRequired => match present(opt_view(signature)) {
                Some(s) => plan matches AuthenticityPlan::Verify(r) && r@ == s,
                None => plan matches AuthenticityPlan::Refuse(DynamicPluginTrustFailure::MissingSignature),
            },
        },
{
    let signature_ref = present_field(signature);
    match mode {
        DynamicPluginAttestationMode::IntegrityOnly => AuthenticityPlan::Decided(DynamicPluginCheckState::Unknown),
        DynamicPluginAttestationMode::SignatureIfPresent => match signature_ref {
            Some(s) => AuthenticityPlan::Verify(s),
            None => AuthenticityPlan::Decided(DynamicPluginCheckState::Unknown),
        },
        DynamicPluginAttestationMode::SignatureRequired => match signature_ref {
            Some(s) => AuthenticityPlan::Verify(s),
            None => AuthenticityPlan::Refuse(DynamicPluginTrustFailure::MissingSignature),
        },
    }
}

/// Signature verification needs at least one trusted key.
pub fn require_trusted_keys(keys: &Vec<String>) -> (r: Result<(), DynamicPluginTrustFailure>)
    ensures
        keys@.len() == 0 ==> r matches Err(DynamicPluginTrustFailure::MissingTrustedKeys),
        keys@.len() > 0 ==> r is Ok,
{
    if keys.len() == 0 {
        Err(DynamicPluginTrustFailure::MissingTrustedKeys)
    } else {
        Ok(())
    }
}

/// The payload of a signature file's text: trimmed, without an optional
/// `ed25519:` prefix, trimmed again.
pub open spec fn signature_payload(raw: Seq<char>) -> Seq<char> {
    let t = trim_spec(raw);
    if has_prefix(t, "ed25519:"@) { trim_spec(t.skip(8)) } else { trim_spec(t) }
}

/// Decodes a signature file's text (read from `path`) into signature bytes.
pub fn decode_signature_text(path: &str, raw: &str) -> (r: Result<Vec<u8>, DynamicPluginTrustFailure>)
    ensures
        trim_spec(raw@).len() == 0 ==> (r matches Err(DynamicPluginTrustFailure::SignatureRead { path: p, error })
            && p@ == path@ && error@ == "signature file is empty"@),
        trim_spec(raw@).len() > 0 ==> match base64_decoded(signature_payload(raw@)) {
            Ok(bytes) => r matches Ok(b) && b@ == bytes,
            Err(e) => r matches Err(DynamicPluginTrustFailure::SignatureRead { path: p, error })
                && p@ == path@ && error@ == "invalid base64 signature: "@ + e,
        },
{
    let trimmed = trim(raw);
    if trimmed.unicode_len() == 0 {
        return Err(DynamicPluginTrustFailure::SignatureRead { path: path.to_owned(), error: "signature file is empty".to_owned() });
    }
    proof { reveal_strlit("ed25519:"); }
    let encoded = match strip_prefix(trimmed, "ed25519:") {
        Some(rest) => trim(rest),
        None => trim(trimmed),
    };
    match base64_decode(encoded) {
        Ok(bytes) => Ok(bytes),
        Err(error) => {
            let mut m = "invalid base64 signature: ".to_owned();
            m.append(error.as_str());
            Err(DynamicPluginTrustFailure::SignatureRead { path: path.to_owned(), error: m })
        },
    }
}

/// What a trusted key decodes to: the raw key bytes, or the parse error.
pub open spec fn parsed_key(value: Seq<char>) -> Result<Seq<u8>, Seq<char>> {
    let t = trim_spec(value);
    if !has_prefix(t, "ed25519:"@) {
        Err("unsupported trusted public key format '"@ + value + "'"@)
    } else {
        match base64_decoded(trim_spec(t.skip(8))) {
            Ok(bytes) => Ok(bytes),
            Err(e) => Err("invalid ed25519 trusted public key '"@ + value + "': "@ + e),
        }
    }
}

/// Parses a trusted key of the form `ed25519:<base64>`.
pub fn parse_ed25519_public_key(value: &str) -> (r: Result<Vec<u8>, DynamicPluginTrustFailure>)
    ensures
        match parsed_key(value@) {
            Ok(bytes) => r matches Ok(b) && b@ == bytes,
            Err(e) => r matches Err(DynamicPluginTrustFailure::InvalidTrustedKey { key, error })
                && key@ == value@ && error@ == e,
        },
{
    proof { reveal_strlit("ed25519:"); }
    let encoded = match strip_prefix(trim(value), "ed25519:") {
        Some(rest) => rest,
        None => {
            let mut m = "unsupported trusted public key format '".to_owned();
            m.append(value);
            m.append("'");
            return Err(DynamicPluginTrustFailure::InvalidTrustedKey { key: value.to_owned(), error: m });
        },
    };
    match base64_decode(trim(encoded)) {
        Ok(bytes) => Ok(bytes),
        Err(error) => {
            let mut m = "invalid ed25519 trusted public key '".to_owned();
            m.append(value);
            m.append("': ");
            m.append(error.as_str());
            Err(DynamicPluginTrustFailure::InvalidTrustedKey { key: value.to_owned(), error: m })
        },
    }
}

/// Some key among the first `n` parses and accepts the signature.
pub open spec fn some_key_accepts(keys: Seq<Seq<char>>, n: int, message: Seq<u8>, signature: Seq<u8>) -> bool {
    exists|i: int| 0 <= i < n && #[trigger] parsed_key(keys[i]) is Ok
        && ed25519_accepts(parsed_key(keys[i])->Ok_0, message, signature)
}

/// The parse errors of the first `n` keys, in order.
pub open spec fn parse_errors_of(keys: Seq<Seq<char>>, n: int) -> Seq<Seq<char>>
    decreases n,
{
    if n <= 0 {
        Seq::empty()
    } else {
        let before = parse_errors_of(keys, n - 1);
        match parsed_key(keys[n - 1]) {
            Ok(_) => before,
            Err(e) => before.push(e),
        }
    }
}

/// Verifies `signature` over `artifact` against the trusted keys: accepted
/// when some key parses and accepts it; otherwise the failure lists every
/// key's parse error in order.
pub fn verify_signature_with_keys(
    signature_path: &str,
    signature: &[u8],
    artifact: &[u8],
    keys: &Vec<String>,
) -> (r: Result<(), DynamicPluginTrustFailure>)
    ensures
        some_key_accepts(texts_of(keys@), keys@.len() as int, artifact@, signature@) ==> r is Ok,
        !some_key_accepts(texts_of(keys@), keys@.len() as int, artifact@, signature@) ==>
            (r matches Err(DynamicPluginTrustFailure::SignatureVerification { path, parse_errors })
                && path@ == signature_path@
                && texts_of(parse_errors@) == parse_errors_of(texts_of(keys@), keys@.len() as int)),
{
    let ghost ks = texts_of(keys@);
    let mut parse_errors: Vec<String> = Vec::new();
    let mut i: usize = 0;
    while i < keys.len()
        invariant
            i <= keys@.len(),
            ks == texts_of(keys@),
            ks.len() == keys@.len(),
            !some_key_accepts(ks, i as int, artifact@, signature@),
            texts_of(parse_errors@) == parse_errors_of(ks, i as int),
        decreases keys.len() - i,
    {
        assert(ks[i as int] == keys@[i as int]@);
        match parse_ed25519_public_key(keys[i].as_str()) {
            Ok(public_key) => {
                if ed25519_verify(public_key.as_slice(), artifact, signature) {
                    assert(parsed_key(ks[i as int]) is Ok);
                    assert(some_key_accepts(ks, keys@.len() as int, artifact@, signature@));
                    return Ok(());
                }
            },
            Err(DynamicPluginTrustFailure::InvalidTrustedKey { key: _, error }) => {
                parse_errors.push(error);
                assert(texts_of(parse_errors@) =~= parse_errors_of(ks, i + 1));
            },
            Err(other) => {
                assert(false);
                return Err(other);
            },
        }
        assert(!some_key_accepts(ks, i + 1, artifact@, signature@)) by {
            if some_key_accepts(ks, i + 1, artifact@, signature@) {
                let w = choose|w: int| 0 <= w < i + 1 && #[trigger] parsed_key(ks[w]) is Ok
                    && ed25519_accepts(parsed_key(ks[w])->Ok_0, artifact@, signature@);
                assert(w < i ==> some_key_accepts(ks, i as int, artifact@, signature@));
            }
        }
        assert(texts_of(parse_errors@) =~= parse_errors_of(ks, i + 1));
        i = i + 1;
    }
    Err(DynamicPluginTrustFailure::SignatureVerification { path: signature_path.to_owned(), parse_errors })
}

/// What trust evaluation does next.
pub enum TrustNext {
    /// Verify the artifact's integrity.
    CheckIntegrity,
    /// Verify the artifact's authenticity.
    CheckAuthenticity,
    /// Evaluation ended with this outcome.
    Done(EvaluatedDynamicPluginTrust),
}

/// The first step: trust is not evaluated for a plugin the host policy
/// refused.
pub fn trust_start(policy_satisfied: bool) -> (next: TrustNext)
    ensures
        !policy_satisfied ==> (next matches TrustNext::Done(t) && t.integrity == DynamicPluginCheckState::Unknown
            && t.authenticity == DynamicPluginCheckState::Unknown && t.failure is None),
        policy_satisfied ==> next is CheckIntegrity,
{
    if policy_satisfied {
        TrustNext::CheckIntegrity
    } else {
        TrustNext::Done(EvaluatedDynamicPluginTrust::unevaluated())
    }
}

/// After integrity verification: a failure ends evaluation with integrity
/// invalid and authenticity unknown.
pub fn trust_after_integrity(integrity: Result<(), DynamicPluginTrustFailure>) -> (next: TrustNext)
    ensures
        match integrity {
            Ok(()) => next is CheckAuthenticity,
            Err(f) => next matches TrustNext::Done(t) && t.integrity == DynamicPluginCheckState::Invalid
                && t.authenticity == DynamicPluginCheckState::Unknown && t.failure == Some(f),
        },
{
    match integrity {
        Ok(()) => TrustNext::CheckAuthenticity,
        Err(f) => TrustNext::Done(EvaluatedDynamicPluginTrust::failed(
            DynamicPluginCheckState::Invalid,
            DynamicPluginCheckState::Unknown,
            f,
        )),
    }
}

/// After authenticity verification of an artifact whose integrity holds:
/// its state, or its failure with authenticity invalid.
pub fn trust_after_authenticity(
    authenticity: Result<DynamicPluginCheckState, DynamicPluginTrustFailure>,
) -> (t: EvaluatedDynamicPluginTrust)
    ensures
        t.integrity == DynamicPluginCheckState::Valid,
        match authenticity {
            Ok(state) => t.authenticity == state && t.failure is None,
            Err(f) => t.authenticity == DynamicPluginCheckState::Invalid && t.failure == Some(f),
        },
{
    match authenticity {
        Ok(state) => EvaluatedDynamicPluginTrust::valid(state),
        Err(f) => EvaluatedDynamicPluginTrust::failed(DynamicPluginCheckState::Valid, DynamicPluginCheckState::Invalid, f),
    }
}

} // verus!
