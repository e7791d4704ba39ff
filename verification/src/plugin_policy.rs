//! Host policy for dynamic plugins: layered effects (built-in, defaults,
//! matching rules in order, then a per-plugin override), and the
//! evaluation that decides whether a plugin may load and how it is attested.

use vstd::prelude::*;
use vstd::string::StringExecFns;
use crate::text::{str_is, trim, trim_spec};
use crate::tool_policy::clone_strings;

verus! {

/// Whether a plugin must start for the host to start.
#[derive(Clone, Copy, Debug, PartialEq, Eq, Structural)]
pub enum DynamicPluginStartupClass {
    Optional,
    Required,
}

/// How much trust evidence a plugin must carry.
#[derive(Clone, Copy, Debug, PartialEq, Eq, Structural)]
pub enum DynamicPluginAttestationMode {
    IntegrityOnly,
    SignatureIfPresent,
    SignatureRequired,
}

/// The state of one plugin check.
#[derive(Clone, Copy, Debug, PartialEq, Eq, Structural)]
pub enum DynamicPluginCheckState {
    Unknown,
    Valid,
    Invalid,
}

/// The lifecycle phase a plugin failure belongs to.
#[derive(Clone, Copy, Debug, PartialEq, Eq, Structural)]
pub enum DynamicPluginFailurePhase {
    Policy,
    Validation,
}

/// A recorded plugin failure.
pub struct DynamicPluginFailure {
    pub phase: DynamicPluginFailurePhase,
    pub code: String,
    pub message: String,
}

/// One layer of host policy; each field it sets overrides earlier layers.
pub struct DynamicPluginHostPolicyEffect {
    pub allowed: Option<bool>,
    pub startup: Option<DynamicPluginStartupClass>,
    pub attestation: Option<DynamicPluginAttestationMode>,
    pub trusted_public_keys: Option<Vec<String>>,
}

/// The mathematical content of an effect.
pub struct EffectV {
    pub allowed: Option<bool>,
    pub startup: Option<DynamicPluginStartupClass>,
    pub attestation: Option<DynamicPluginAttestationMode>,
    pub keys: Option<Seq<Seq<char>>>,
}

pub open spec fn texts(v: Seq<String>) -> Seq<Seq<char>> {
    v.map_values(|s: String| s@)
}

impl View for DynamicPluginHostPolicyEffect {
    type V = EffectV;

    open spec fn view(&self) -> EffectV {
        EffectV {
            allowed: self.allowed,
            startup: self.startup,
            attestation: self.attestation,
            keys: match self.trusted_public_keys {
                Some(k) => Some(texts(k@)),
                None => None,
            },
        }
    }
}

/// The effect that sets nothing.
pub open spec fn empty_effect() -> EffectV {
    EffectV { allowed: None, startup: None, attestation: None, keys: None }
}

/// Layering `top` over `base`: every field `top` sets wins.
pub open spec fn layered(base: EffectV, top: EffectV) -> EffectV {
    EffectV {
        allowed: if top.allowed is Some { top.allowed } else { base.allowed },
        startup: if top.startup is Some { top.startup } else { base.startup },
        attestation: if top.attestation is Some { top.attestation } else { base.attestation },
        keys: if top.keys is Some { top.keys } else { base.keys },
    }
}

/// Layering is associative, and the empty effect is neutral on both sides.
pub proof fn lemma_layering_laws(a: EffectV, b: EffectV, c: EffectV)
    ensures
        layered(layered(a, b), c) == layered(a, layered(b, c)),
        layered(a, empty_effect()) == a,
        layered(empty_effect(), a) == a,
{
}

fn copy_keys(k: &Option<Vec<String>>) -> (out: Option<Vec<String>>)
    ensures
        match (out, *k) {
            (Some(o), Some(i)) => texts(o@) == texts(i@),
            (None, None) => true,
            _ => false,
        },
{
    match k {
        Some(v) => Some(clone_strings(v)),
        None => None,
    }
}

impl DynamicPluginHostPolicyEffect {
    /// The effect that sets nothing.
    pub fn empty() -> (e: Self)
        ensures
            e@ == empty_effect(),
    {
        DynamicPluginHostPolicyEffect { allowed: None, startup: None, attestation: None, trusted_public_keys: None }
    }

    /// A copy of this effect.
    pub fn duplicate(&self) -> (e: Self)
        ensures
            e@ == self@,
    {
        DynamicPluginHostPolicyEffect {
            allowed: self.allowed,
            startup: self.startup,
            attestation: self.attestation,
            trusted_public_keys: copy_keys(&self.trusted_public_keys),
        }
    }

    /// Layers `other` over this effect.
    pub fn merge_from(&mut self, other: Self)
        ensures
            final(self)@ == layered(old(self)@, other@),
    {
        if let Some(value) = other.allowed {
            self.allowed = Some(value);
        }
        if let Some(value) = other.startup {
            self.startup = Some(value);
        }
        if let Some(value) = other.attestation {
            self.attestation = Some(value);
        }
        if let Some(value) = other.trusted_public_keys {
            self.trusted_public_keys = Some(value);
        }
    }
}

/// A policy rule: its effect applies to plugins matching every criterion
/// it sets (kind, and plugin id after trimming).
pub struct DynamicPluginHostPolicyRule {
    pub match_kind: Option<String>,
    pub match_plugin_id: Option<String>,
    pub effect: DynamicPluginHostPolicyEffect,
}

pub open spec fn rule_matches(rule: DynamicPluginHostPolicyRule, plugin_id: Seq<char>, kind: Seq<char>) -> bool {
    (rule.match_kind matches Some(k) ==> k@ == kind)
        && (rule.match_plugin_id matches Some(p) ==> trim_spec(plugin_id) == p@)
}

/// A plugin host policy: defaults, ordered rules, and per-plugin overrides
/// keyed by trimmed plugin id (the last entry for an id wins).
pub struct DynamicPluginHostPolicy {
    pub defaults: DynamicPluginHostPolicyEffect,
    pub rules: Vec<DynamicPluginHostPolicyRule>,
    pub overrides: Vec<(String, DynamicPluginHostPolicyEffect)>,
}

/// The overrides as a map: for each id, its last entry.
pub open spec fn overrides_map(entries: Seq<(String, DynamicPluginHostPolicyEffect)>) -> Map<Seq<char>, EffectV>
    decreases entries.len(),
{
    if entries.len() == 0 {
        Map::empty()
    } else {
        overrides_map(entries.drop_last()).insert(entries.last().0@, entries.last().1@)
    }
}

/// Merging override entries, in order, into an override map: each is
/// layered over the id's current override (or the empty effect).
pub open spec fn merge_overrides(current: Map<Seq<char>, EffectV>, incoming: Seq<(String, DynamicPluginHostPolicyEffect)>) -> Map<Seq<char>, EffectV>
    decreases incoming.len(),
{
    if incoming.len() == 0 {
        current
    } else {
        let before = merge_overrides(current, incoming.drop_last());
        let id = incoming.last().0@;
        let base = if before.contains_key(id) { before[id] } else { empty_effect() };
        before.insert(id, layered(base, incoming.last().1@))
    }
}

/// The effect the policy gives a plugin before any override: the built-in
/// baseline, the defaults, then each matching rule in order.
pub open spec fn effect_after_rules(start: EffectV, rules: Seq<DynamicPluginHostPolicyRule>, plugin_id: Seq<char>, kind: Seq<char>) -> EffectV
    decreases rules.len(),
{
    if rules.len() == 0 {
        start
    } else {
        let before = effect_after_rules(start, rules.drop_last(), plugin_id, kind);
        if rule_matches(rules.last(), plugin_id, kind) { layered(before, rules.last().effect@) } else { before }
    }
}

/// A rule applies to a plugin exactly when each criterion it sets holds: its
/// kind, if set, is the plugin's kind, and its plugin id, if set, is the
/// plugin's trimmed id. An applying rule layers its effect over what the
/// earlier rules gave; any other rule leaves it as it was.
pub proof fn lemma_rule_applies_when_every_criterion_holds(
    start: EffectV,
    rules: Seq<DynamicPluginHostPolicyRule>,
    rule: DynamicPluginHostPolicyRule,
    plugin_id: Seq<char>,
    kind: Seq<char>,
)
    ensures
        effect_after_rules(start, rules.push(rule), plugin_id, kind) == if (rule.match_kind is None
            || rule.match_kind->0@ == kind) && (rule.match_plugin_id is None
            || rule.match_plugin_id->0@ == trim_spec(plugin_id)) {
            layered(effect_after_rules(start, rules, plugin_id, kind), rule.effect@)
        } else {
            effect_after_rules(start, rules, plugin_id, kind)
        },
{
    assert(rules.push(rule).drop_last() =~= rules);
}

/// A rule scoped to another kind of plugin never changes the effect a
/// plugin gets, whatever plugin id it names: dropping it from the rules
/// gives the same effect.
pub proof fn lemma_rule_for_another_kind_is_inert(
    start: EffectV,
    rules: Seq<DynamicPluginHostPolicyRule>,
    i: int,
    plugin_id: Seq<char>,
    kind: Seq<char>,
)
    requires
        0 <= i < rules.len(),
        rules[i].match_kind is Some,
        rules[i].match_kind->0@ != kind,
    ensures
        effect_after_rules(start, rules.remove(i), plugin_id, kind) == effect_after_rules(start, rules, plugin_id, kind),
    decreases rules.len(),
{
    let last = rules.len() - 1;
    if i == last {
        assert(rules.remove(i) =~= rules.drop_last());
        lemma_rule_applies_when_every_criterion_holds(start, rules.drop_last(), rules[i], plugin_id, kind);
        assert(rules.drop_last().push(rules[i]) =~= rules);
    } else {
        lemma_rule_for_another_kind_is_inert(start, rules.drop_last(), i, plugin_id, kind);
        assert(rules.remove(i).drop_last() =~= rules.drop_last().remove(i));
        assert(rules.remove(i).last() == rules.last());
    }
}

/// Layering: every field the top effect sets is taken from it, and every
/// field it leaves unset keeps the base's value.
pub proof fn lemma_top_layer_wins(base: EffectV, top: EffectV)
    ensures
        top.allowed is Some ==> layered(base, top).allowed == top.allowed,
        top.allowed is None ==> layered(base, top).allowed == base.allowed,
        top.startup is Some ==> layered(base, top).startup == top.startup,
        top.startup is None ==> layered(base, top).startup == base.startup,
        top.attestation is Some ==> layered(base, top).attestation == top.attestation,
        top.attestation is None ==> layered(base, top).attestation == base.attestation,
        top.keys is Some ==> layered(base, top).keys == top.keys,
        top.keys is None ==> layered(base, top).keys == base.keys,
{
}

/// Of the override entries for one id, the last one is the id's override;
/// an id no entry names has none.
pub proof fn lemma_last_override_wins(entries: Seq<(String, DynamicPluginHostPolicyEffect)>, id: Seq<char>, i: int)
    requires
        0 <= i < entries.len(),
        entries[i].0@ == id,
        forall|j: int| i < j < entries.len() ==> #[trigger] entries[j].0@ != id,
    ensures
        overrides_map(entries).contains_key(id),
        overrides_map(entries)[id] == entries[i].1@,
    decreases entries.len(),
{
    if i < entries.len() - 1 {
        let shorter = entries.drop_last();
        assert forall|j: int| i < j < shorter.len() implies #[trigger] shorter[j].0@ != id by {
            assert(shorter[j] == entries[j]);
        }
        lemma_last_override_wins(shorter, id, i);
        assert(entries.last().0@ != id);
    }
}

pub proof fn lemma_unnamed_id_has_no_override(entries: Seq<(String, DynamicPluginHostPolicyEffect)>, id: Seq<char>)
    requires
        forall|j: int| 0 <= j < entries.len() ==> #[trigger] entries[j].0@ != id,
    ensures
        !overrides_map(entries).contains_key(id),
    decreases entries.len(),
{
    if entries.len() > 0 {
        let shorter = entries.drop_last();
        assert forall|j: int| 0 <= j < shorter.len() implies #[trigger] shorter[j].0@ != id by {
            assert(shorter[j] == entries[j]);
        }
        lemma_unnamed_id_has_no_override(shorter, id);
    }
}

/// The built-in baseline: allowed, optional, integrity only.
pub open spec fn baseline_effect() -> EffectV {
    EffectV {
        allowed: Some(true),
        startup: Some(DynamicPluginStartupClass::Optional),
        attestation: Some(DynamicPluginAttestationMode::IntegrityOnly),
        keys: None,
    }
}

/// The effect a policy gives a plugin: baseline, defaults, matching rules,
/// then the override for its trimmed id.
pub open spec fn effective_effect(policy: DynamicPluginHostPolicy, plugin_id: Seq<char>, kind: Seq<char>) -> EffectV {
    let ruled = effect_after_rules(layered(baseline_effect(), policy.defaults@), policy.rules@, plugin_id, kind);
    let overrides = overrides_map(policy.overrides@);
    if overrides.contains_key(trim_spec(plugin_id)) {
        layered(ruled, overrides[trim_spec(plugin_id)])
    } else {
        ruled
    }
}

/// Why a policy refused a plugin.
#[derive(Clone, Copy, Debug, PartialEq, Eq, Structural)]
pub enum DynamicPluginHostPolicyFailure {
    Blocked,
}

/// The message of a policy failure for a plugin.
pub open spec fn policy_failure_text(plugin_id: Seq<char>) -> Seq<char> {
    "dynamic plugin '"@ + plugin_id + "' is blocked by host policy"@
}

impl DynamicPluginHostPolicyFailure {
    /// The failure's message for `plugin_id`.
    pub fn display(&self, plugin_id: &str) -> (m: String)
        ensures
            m@ == policy_failure_text(plugin_id@),
    {
        let mut m = "dynamic plugin '".to_owned();
        m.append(plugin_id);
        m.append("' is blocked by host policy");
        m
    }
}

/// The outcome of evaluating a host policy for one plugin.
pub struct EvaluatedDynamicPluginHostPolicy {
    pub policy_satisfied: bool,
    pub startup_class: DynamicPluginStartupClass,
    pub attestation_mode: DynamicPluginAttestationMode,
    pub trusted_public_keys: Vec<String>,
    pub failure: Option<DynamicPluginHostPolicyFailure>,
}

/// The evaluation's fields from the effective effect: blocked exactly when
/// it disallows the plugin; unset fields take the baseline values.
pub open spec fn evaluated_from(e: EffectV, out: EvaluatedDynamicPluginHostPolicy) -> bool {
    &&& out.policy_satisfied == (e.allowed != Some(false))
    &&& out.failure == (if e.allowed == Some(false) { Some(DynamicPluginHostPolicyFailure::Blocked) } else { None })
    &&& out.startup_class == (match e.startup {
        Some(s) => s,
        None => DynamicPluginStartupClass::Optional,
    })
    &&& out.attestation_mode == (match e.attestation {
        Some(a) => a,
        None => DynamicPluginAttestationMode::IntegrityOnly,
    })
    &&& texts(out.trusted_public_keys@) == (match e.keys {
        Some(k) => k,
        None => Seq::empty(),
    })
}

impl EvaluatedDynamicPluginHostPolicy {
    /// The policy check's state.
    pub fn check_state(&self) -> (s: DynamicPluginCheckState)
        ensures
            s == if self.policy_satisfied { DynamicPluginCheckState::Valid } else { DynamicPluginCheckState::Invalid },
    {
        if self.policy_satisfied {
            DynamicPluginCheckState::Valid
        } else {
            DynamicPluginCheckState::Invalid
        }
    }

    /// The failure to record for `plugin_id`, if the policy refused it.
    pub fn last_error(&self, plugin_id: &str) -> (f: Option<DynamicPluginFailure>)
        ensures
            match f {
                Some(f) => self.failure is Some && f.phase == DynamicPluginFailurePhase::Policy
                    && f.code@ == "policy_blocked"@ && f.message@ == policy_failure_text(plugin_id@),
                None => self.failure is None,
            },
    {
        match &self.failure {
            Some(failure) => Some(DynamicPluginFailure {
                phase: DynamicPluginFailurePhase::Policy,
                code: "policy_blocked".to_owned(),
                message: failure.display(plugin_id),
            }),
            None => None,
        }
    }

    /// The failure, if the policy refused the plugin.
    pub fn failure(&self) -> (f: Option<DynamicPluginHostPolicyFailure>)
        ensures
            f == self.failure,
    {
        self.failure
    }
}

fn policy_rule_matches(rule: &DynamicPluginHostPolicyRule, plugin_id: &str, kind: &str) -> (m: bool)
    ensures
        m == rule_matches(*rule, plugin_id@, kind@),
{
    if let Some(match_kind) = &rule.match_kind {
        if !str_is(kind, match_kind.as_str()) {
            return false;
        }
    }
    if let Some(match_plugin_id) = &rule.match_plugin_id {
        if !str_is(trim(plugin_id), match_plugin_id.as_str()) {
            return false;
        }
    }
    true
}

/// The last override entry for `id`.
fn find_override(entries: &Vec<(String, DynamicPluginHostPolicyEffect)>, id: &str) -> (found: Option<usize>)
    ensures
        match found {
            Some(i) => i < entries@.len() && overrides_map(entries@).contains_key(id@)
                && overrides_map(entries@)[id@] == entries@[i as int].1@,
            None => !overrides_map(entries@).contains_key(id@),
        },
{
    let mut i: usize = entries.len();
    assert(entries@.take(i as int) =~= entries@);
    while i > 0
        invariant
            i <= entries@.len(),
            forall|j: int| i <= j < entries@.len() ==> #[trigger] entries@[j].0@ != id@,
            overrides_map(entries@).contains_key(id@) == overrides_map(entries@.take(i as int)).contains_key(id@),
            overrides_map(entries@).contains_key(id@) ==> overrides_map(entries@)[id@] == overrides_map(entries@.take(i as int))[id@],
        decreases i,
    {
        let ghost prefix = entries@.take(i as int);
        assert(prefix.drop_last() =~= entries@.take(i - 1));
        assert(prefix.last() == entries@[i - 1]);
        if str_is(entries[i - 1].0.as_str(), id) {
            return Some(i - 1);
        }
        i = i - 1;
    }
    assert(entries@.take(0) =~= Seq::<(String, DynamicPluginHostPolicyEffect)>::empty());
    None
}

/// An evaluation blocks the plugin exactly when the effective effect
/// disallows it, and then reports the `Blocked` failure; an allowed plugin
/// has no failure. Unset startup and attestation fall back to optional and
/// integrity-only, and unset keys to none.
pub proof fn lemma_evaluation_outcome(e: EffectV, out: EvaluatedDynamicPluginHostPolicy)
    requires
        evaluated_from(e, out),
    ensures
        !out.policy_satisfied <==> e.allowed == Some(false),
        out.policy_satisfied <==> out.failure is None,
        !out.policy_satisfied ==> out.failure == Some(DynamicPluginHostPolicyFailure::Blocked),
        e.startup is None ==> out.startup_class == DynamicPluginStartupClass::Optional,
        e.attestation is None ==> out.attestation_mode == DynamicPluginAttestationMode::IntegrityOnly,
        e.keys is None ==> out.trusted_public_keys@.len() == 0,
{
    assert(texts(out.trusted_public_keys@).len() == out.trusted_public_keys@.len());
}

/// Evaluates `policy` for the plugin with `plugin_id` of kind `kind`.
pub fn evaluate_dynamic_plugin_host_policy(policy: &DynamicPluginHostPolicy, plugin_id: &str, kind: &str) -> (out: EvaluatedDynamicPluginHostPolicy)
    ensures
        evaluated_from(effective_effect(*policy, plugin_id@, kind@), out),
{
    let mut effect = DynamicPluginHostPolicyEffect {
        allowed: Some(true),
        startup: Some(DynamicPluginStartupClass::Optional),
        attestation: Some(DynamicPluginAttestationMode::IntegrityOnly),
        trusted_public_keys: None,
    };
    effect.merge_from(policy.defaults.duplicate());
    let ghost start = effect@;
    let mut k: usize = 0;
    while k < policy.rules.len()
        invariant
            k <= policy.rules@.len(),
            start == layered(baseline_effect(), policy.defaults@),
            effect@ == effect_after_rules(start, policy.rules@.take(k as int), plugin_id@, kind@),
        decreases policy.rules.len() - k,
    {
        let ghost prefix = policy.rules@.take(k + 1);
        assert(prefix.drop_last() =~= policy.rules@.take(k as int));
        assert(prefix.last() == policy.rules@[k as int]);
        if policy_rule_matches(&policy.rules[k], plugin_id, kind) {
            effect.merge_from(policy.rules[k].effect.duplicate());
        }
        k = k + 1;
    }
    assert(policy.rules@.take(policy.rules@.len() as int) =~= policy.rules@);
    let id = trim(plugin_id);
    if let Some(i) = find_override(&policy.overrides, id) {
        effect.merge_from(policy.overrides[i].1.duplicate());
    }
    let startup_class = match effect.startup {
        Some(s) => s,
        None => DynamicPluginStartupClass::Optional,
    };
    let attestation_mode = match effect.attestation {
        Some(a) => a,
        None => DynamicPluginAttestationMode::IntegrityOnly,
    };
    let blocked = match effect.allowed {
        Some(a) => !a,
        None => false,
    };
    let trusted_public_keys = match effect.trusted_public_keys {
        Some(keys) => keys,
        None => Vec::new(),
    };
    proof {
        if effect.trusted_public_keys is None {
            assert(texts(trusted_public_keys@) =~= Seq::<Seq<char>>::empty());
        }
    }
    if blocked {
        return EvaluatedDynamicPluginHostPolicy {
            policy_satisfied: false,
            startup_class,
            attestation_mode,
            trusted_public_keys,
            failure: Some(DynamicPluginHostPolicyFailure::Blocked),
        };
    }
    EvaluatedDynamicPluginHostPolicy {
        policy_satisfied: true,
        startup_class,
        attestation_mode,
        trusted_public_keys,
        failure: None,
    }
}

impl DynamicPluginHostPolicy {
    /// Layers `other` over this policy: its defaults over these defaults,
    /// its rules after these rules, and each of its overrides over this
    /// policy's override for the same id.
    pub fn merge_from(&mut self, other: Self)
        ensures
            final(self).defaults@ == layered(old(self).defaults@, other.defaults@),
            final(self).rules@ == old(self).rules@ + other.rules@,
            overrides_map(final(self).overrides@) == merge_overrides(overrides_map(old(self).overrides@), other.overrides@),
    {
        self.defaults.merge_from(other.defaults);
        let mut rules = other.rules;
        self.rules.append(&mut rules);
        let incoming = other.overrides;
        let ghost start = overrides_map(self.overrides@);
        let mut k: usize = 0;
        while k < incoming.len()
            invariant
                k <= incoming@.len(),
                overrides_map(self.overrides@) == merge_overrides(start, incoming@.take(k as int)),
                self.defaults@ == layered(old(self).defaults@, other.defaults@),
                self.rules@ == old(self).rules@ + other.rules@,
            decreases incoming.len() - k,
        {
            let ghost prefix = incoming@.take(k + 1);
            assert(prefix.drop_last() =~= incoming@.take(k as int));
            assert(prefix.last() == incoming@[k as int]);
            let id = &incoming[k].0;
            let addition = incoming[k].1.duplicate();
            let ghost prev = self.overrides@;
            match find_override(&self.overrides, id.as_str()) {
                Some(i) => {
                    let mut effect = self.overrides[i].1.duplicate();
                    effect.merge_from(addition);
                    self.overrides.push((id.clone(), effect));
                },
                None => {
                    let mut effect = DynamicPluginHostPolicyEffect::empty();
                    effect.merge_from(addition);
                    self.overrides.push((id.clone(), effect));
                },
            }
            assert(self.overrides@.drop_last() =~= prev);
            k = k + 1;
        }
        assert(incoming@.take(incoming@.len() as int) =~= incoming@);
    }
}

/// Secure runtime defaults: plugins are required to start and must carry
/// a signature, unless the policy's defaults already say otherwise.
pub fn apply_secure_runtime_defaults(policy: &mut DynamicPluginHostPolicy)
    ensures
        final(policy).defaults@ == layered(
            EffectV {
                allowed: None,
                startup: Some(DynamicPluginStartupClass::Required),
                attestation: Some(DynamicPluginAttestationMode::SignatureRequired),
                keys: None,
            },
            old(policy).defaults@,
        ),
        final(policy).rules@ == old(policy).rules@,
        final(policy).overrides@ == old(policy).overrides@,
{
    if policy.defaults.startup.is_none() {
        policy.defaults.startup = Some(DynamicPluginStartupClass::Required);
    }
    if policy.defaults.attestation.is_none() {
        policy.defaults.attestation = Some(DynamicPluginAttestationMode::SignatureRequired);
    }
}

/// Trims each configured key.
pub fn trimmed_keys(keys: Option<Vec<String>>) -> (out: Option<Vec<String>>)
    ensures
        match (out, keys) {
            (Some(o), Some(k)) => o@.len() == k@.len() && forall|i: int| 0 <= i < k@.len() ==> #[trigger] o@[i]@ == trim_spec(k@[i]@),
            (None, None) => true,
            _ => false,
        },
{
    match keys {
        None => None,
        Some(keys) => {
            let mut out: Vec<String> = Vec::new();
            let mut i: usize = 0;
            while i < keys.len()
                invariant
                    i <= keys@.len(),
                    out@.len() == i,
                    forall|j: int| 0 <= j < i ==> #[trigger] out@[j]@ == trim_spec(keys@[j]@),
                decreases keys.len() - i,
            {
                out.push(trim(keys[i].as_str()).to_owned());
                i = i + 1;
            }
            Some(out)
        },
    }
}

/// An effect read from a policy file, its keys trimmed.
pub fn effect_from_file(
    allowed: Option<bool>,
    startup: Option<DynamicPluginStartupClass>,
    attestation: Option<DynamicPluginAttestationMode>,
    trusted_public_keys: Option<Vec<String>>,
) -> (e: DynamicPluginHostPolicyEffect)
    ensures
        e.allowed == allowed,
        e.startup == startup,
        e.attestation == attestation,
        match (e.trusted_public_keys, trusted_public_keys) {
            (Some(o), Some(k)) => o@.len() == k@.len() && forall|i: int| 0 <= i < k@.len() ==> #[trigger] o@[i]@ == trim_spec(k@[i]@),
            (None, None) => true,
            _ => false,
        },
{
    DynamicPluginHostPolicyEffect { allowed, startup, attestation, trusted_public_keys: trimmed_keys(trusted_public_keys) }
}

/// A rule read from a policy file, its plugin id and keys trimmed.
pub fn rule_from_file(
    match_kind: Option<String>,
    match_plugin_id: Option<String>,
    effect: DynamicPluginHostPolicyEffect,
) -> (r: DynamicPluginHostPolicyRule)
    ensures
        r.match_kind == match_kind,
        match (r.match_plugin_id, match_plugin_id) {
            (Some(o), Some(p)) => o@ == trim_spec(p@),
            (None, None) => true,
            _ => false,
        },
        r.effect == effect,
{
    let match_plugin_id = match match_plugin_id {
        Some(p) => Some(trim(p.as_str()).to_owned()),
        None => None,
    };
    DynamicPluginHostPolicyRule { match_kind, match_plugin_id, effect }
}

/// A policy read from a file, its override ids trimmed.
pub fn policy_from_file(
    defaults: DynamicPluginHostPolicyEffect,
    rules: Vec<DynamicPluginHostPolicyRule>,
    overrides: Vec<(String, DynamicPluginHostPolicyEffect)>,
) -> (p: DynamicPluginHostPolicy)
    ensures
        p.defaults == defaults,
        p.rules == rules,
        p.overrides@.len() == overrides@.len(),
        forall|i: int| 0 <= i < overrides@.len() ==> #[trigger] p.overrides@[i].0@ == trim_spec(overrides@[i].0@)
            && p.overrides@[i].1 == overrides@[i].1,
{
    let mut trimmed: Vec<(String, DynamicPluginHostPolicyEffect)> = Vec::new();
    let mut source = overrides;
    let ghost entries_in = source@;
    while source.len() > 0
        invariant
            trimmed@.len() + source@.len() == entries_in.len(),
            source@ == entries_in.skip(trimmed@.len() as int),
            forall|j: int| 0 <= j < trimmed@.len() ==> #[trigger] trimmed@[j].0@ == trim_spec(entries_in[j].0@)
                && trimmed@[j].1 == entries_in[j].1,
        decreases source.len(),
    {
        let ghost n = trimmed@.len();
        let (id, effect) = source.remove(0);
        assert(entries_in[n as int] == (id, effect));
        trimmed.push((trim(id.as_str()).to_owned(), effect));
        assert(source@ =~= entries_in.skip(trimmed@.len() as int));
    }
    DynamicPluginHostPolicy { defaults, rules, overrides: trimmed }
}

} // verus!
