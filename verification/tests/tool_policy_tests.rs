use std::collections::BTreeMap;

use relay_gateway::tool_policy::{resolve_policy, ResolvedToolPolicy, ToolCacheConfig, ToolClass, ToolOverride};

fn class(cacheable: bool, members: &[&str]) -> ToolClass<f64> {
    let mut c = ToolClass::empty();
    c.cacheable = cacheable;
    c.members = members.iter().map(|member| member.to_string()).collect();
    c
}

fn tools(
    classes: BTreeMap<String, ToolClass<f64>>,
    overrides: BTreeMap<String, ToolOverride<f64>>,
) -> ToolCacheConfig<f64> {
    let mut config = ToolCacheConfig::new_default();
    config.classes = classes.into_iter().collect();
    config.overrides = overrides.into_iter().collect();
    config
}

fn resolve(name: &str, ttl_seconds: u64, bypass_rate: f64, tools: &ToolCacheConfig<f64>) -> ResolvedToolPolicy<f64> {
    resolve_policy(name, ttl_seconds, bypass_rate, tools)
}

#[test]
fn policy_resolution_inherits_class_values_and_honors_an_override() {
    let mut classes = BTreeMap::new();
    let mut read_only = class(true, &["docs_*"]);
    read_only.ttl_seconds = Some(300);
    read_only.bypass_rate = Some(0.2);
    read_only.tool_version = Some("class-v1".to_string());
    read_only.arg_skip = vec!["request_id".to_string()];
    classes.insert("read_only".to_string(), read_only);
    let mut overrides = BTreeMap::new();
    let mut docs_lookup = ToolOverride::empty();
    docs_lookup.cacheable = Some(false);
    docs_lookup.arg_skip = Some(vec![]);
    docs_lookup.tool_version = Some("tool-v2".to_string());
    overrides.insert("docs_lookup".to_string(), docs_lookup);
    let tools = tools(classes, overrides);

    let unclassified = resolve("send_email", 3600, 0.0, &tools);
    assert!(!unclassified.cacheable);
    assert_eq!(unclassified.ttl_seconds, 3600);

    let class_only = resolve("docs_search", 3600, 0.0, &tools);
    assert!(class_only.cacheable);
    assert_eq!(class_only.ttl_seconds, 300);
    assert_eq!(class_only.bypass_rate, 0.2);
    assert_eq!(class_only.tool_version.as_deref(), Some("class-v1"));
    assert_eq!(class_only.arg_skip, ["request_id"]);

    let overridden = resolve("docs_lookup", 3600, 0.0, &tools);
    assert!(!overridden.cacheable);
    assert_eq!(overridden.ttl_seconds, 300);
    assert_eq!(overridden.bypass_rate, 0.2);
    assert!(overridden.arg_skip.is_empty());
    assert_eq!(overridden.tool_version.as_deref(), Some("tool-v2"));
}

#[test]
fn exact_and_specific_pattern_rules_choose_one_policy() {
    let mut classes = BTreeMap::new();
    let mut catch_all = class(true, &["*"]);
    catch_all.ttl_seconds = Some(100);
    classes.insert("catch_all".to_string(), catch_all);
    let mut docs = class(true, &["docs_*"]);
    docs.ttl_seconds = Some(60);
    classes.insert("docs".to_string(), docs);
    let mut private = class(true, &["docs_private"]);
    private.ttl_seconds = Some(10);
    classes.insert("private".to_string(), private);
    let mut overrides = BTreeMap::new();
    let mut docs_pattern = ToolOverride::empty();
    docs_pattern.ttl_seconds = Some(20);
    overrides.insert("docs_*".to_string(), docs_pattern);
    let mut docs_private = ToolOverride::empty();
    docs_private.ttl_seconds = Some(5);
    overrides.insert("docs_private".to_string(), docs_private);
    let tools = tools(classes, overrides);

    assert_eq!(resolve("docs_private", 3600, 0.0, &tools).ttl_seconds, 5, "exact class and override entries win");
    assert_eq!(
        resolve("docs_search", 3600, 0.0, &tools).ttl_seconds,
        20,
        "the more-specific wildcard class and override win"
    );
    assert_eq!(resolve("other", 3600, 0.0, &tools).ttl_seconds, 100);
}

#[test]
fn unclassified_tool_falls_into_the_default_bucket_uncached() {
    let tools = ToolCacheConfig::<f64>::new_default();
    let policy = resolve("anything", 3600, 0.0, &tools);
    assert!(!policy.cacheable, "an unknown tool must default to not cached");
}

#[test]
fn class_membership_makes_a_tool_cacheable() {
    let mut classes = BTreeMap::new();
    classes.insert("read_only".to_string(), class(true, &["docs_lookup"]));
    let mut volatile = class(true, &["get_weather"]);
    volatile.ttl_seconds = Some(300);
    volatile.bypass_rate = Some(0.2);
    classes.insert("volatile".to_string(), volatile);
    let tools = tools(classes, BTreeMap::new());
    let policy = resolve("docs_lookup", 3600, 0.0, &tools);
    assert!(policy.cacheable);
    assert_eq!(policy.ttl_seconds, 3600);
    assert_eq!(policy.bypass_rate, 0.0);
    let policy = resolve("get_weather", 3600, 0.0, &tools);
    assert_eq!(policy.ttl_seconds, 300);
    assert_eq!(policy.bypass_rate, 0.2);
}

#[test]
fn per_tool_override_wins_over_its_class() {
    let mut classes = BTreeMap::new();
    let mut read_only = class(true, &["docs_lookup"]);
    read_only.arg_skip = vec!["request_id".to_string()];
    classes.insert("read_only".to_string(), read_only);
    let mut overrides = BTreeMap::new();
    let mut over = ToolOverride::empty();
    over.cacheable = Some(false);
    over.ttl_seconds = Some(30);
    over.bypass_rate = Some(0.25);
    over.tool_version = Some("v2".to_string());
    overrides.insert("docs_lookup".to_string(), over);
    let tools = tools(classes, overrides);
    let policy = resolve("docs_lookup", 3600, 0.0, &tools);
    assert!(!policy.cacheable, "override cacheable=false must win");
    assert_eq!(policy.ttl_seconds, 30);
    assert_eq!(policy.bypass_rate, 0.25);
    assert_eq!(policy.tool_version.as_deref(), Some("v2"));
    assert_eq!(policy.arg_skip, vec!["request_id".to_string()]);
}

#[test]
fn override_arg_skip_replaces_the_class_list() {
    let mut classes = BTreeMap::new();
    let mut read_only = class(true, &["lookup"]);
    read_only.arg_skip = vec!["session_id".to_string()];
    classes.insert("read_only".to_string(), read_only);
    let mut overrides = BTreeMap::new();
    let mut over = ToolOverride::empty();
    over.arg_skip = Some(vec![]);
    overrides.insert("lookup".to_string(), over);
    let tools = tools(classes, overrides);
    let policy = resolve("lookup", 3600, 0.0, &tools);
    assert!(policy.arg_skip.is_empty(), "an override arg_skip (even empty) replaces the class list");
}

#[test]
fn wildcard_member_classifies_a_matching_tool() {
    let mut classes = BTreeMap::new();
    classes.insert("read_only".to_string(), class(true, &["docs_*"]));
    let tools = tools(classes, BTreeMap::new());
    assert!(resolve("docs_lookup", 3600, 0.0, &tools).cacheable);
    assert!(
        !resolve("send_email", 3600, 0.0, &tools).cacheable,
        "a non-matching tool still falls through to default"
    );
}

#[test]
fn exact_member_beats_any_wildcard_match() {
    let mut classes = BTreeMap::new();
    classes.insert("a_wildcards".to_string(), class(true, &["docs_*"]));
    classes.insert("b_exact".to_string(), class(false, &["docs_lookup"]));
    let tools = tools(classes, BTreeMap::new());
    let policy = resolve("docs_lookup", 3600, 0.0, &tools);
    assert!(!policy.cacheable, "the exact member's class must win over a matching wildcard");
}

#[test]
fn most_specific_wildcard_wins() {
    let mut classes = BTreeMap::new();
    classes.insert("a_catch_all".to_string(), class(false, &["*"]));
    classes.insert("b_docs".to_string(), class(true, &["docs_*"]));
    let tools = tools(classes, BTreeMap::new());
    assert!(
        resolve("docs_lookup", 3600, 0.0, &tools).cacheable,
        "the pattern with more literal characters must win"
    );
    assert!(!resolve("send_email", 3600, 0.0, &tools).cacheable);
}

#[test]
fn equal_literals_fewer_stars_then_smaller_pattern_break_ties() {
    let mut classes = BTreeMap::new();
    classes.insert("two_stars".to_string(), class(false, &["*ab*"]));
    classes.insert("one_star".to_string(), class(true, &["ab*"]));
    let t = tools(classes, BTreeMap::new());
    assert!(
        resolve("ab", 3600, 0.0, &t).cacheable,
        "with equal literal counts the pattern with fewer stars must win"
    );

    let mut classes = BTreeMap::new();
    classes.insert("suffix".to_string(), class(false, &["*x"]));
    classes.insert("prefix".to_string(), class(true, &["x*"]));
    let t = tools(classes, BTreeMap::new());
    assert!(
        !resolve("x", 3600, 0.0, &t).cacheable,
        "'*x' sorts before 'x*', so the suffix class must win the tie"
    );
}

#[test]
fn override_patterns_apply_with_exact_keys_winning() {
    let mut classes = BTreeMap::new();
    classes.insert("read_only".to_string(), class(true, &["docs_*"]));
    let mut overrides = BTreeMap::new();
    let mut secret = ToolOverride::empty();
    secret.cacheable = Some(false);
    overrides.insert("docs_secret_*".to_string(), secret);
    let mut audit = ToolOverride::empty();
    audit.cacheable = Some(true);
    overrides.insert("docs_secret_audit".to_string(), audit);
    let t = tools(classes, overrides);
    let cacheable = |name: &str| resolve(name, 3600, 0.0, &t).cacheable;
    assert!(!cacheable("docs_secret_dump"), "a pattern override must apply to the tools it matches");
    assert!(cacheable("docs_secret_audit"), "an exact override key must win over a matching pattern");
    assert!(cacheable("docs_lookup"), "tools no override matches keep their class policy");

    let mut overrides = BTreeMap::new();
    let mut docs = ToolOverride::empty();
    docs.cacheable = Some(false);
    overrides.insert("docs_*".to_string(), docs);
    let mut classes = BTreeMap::new();
    classes.insert("read_only".to_string(), class(true, &["docs_*"]));
    let t = tools(classes, overrides);
    assert!(!resolve("docs_*", 3600, 0.0, &t).cacheable, "the literal name `docs_*` resolves its exact entry");
    assert!(!resolve("docs_lookup", 3600, 0.0, &t).cacheable);
}

#[test]
fn most_specific_override_pattern_wins() {
    let mut classes = BTreeMap::new();
    classes.insert("read_only".to_string(), class(true, &["docs_*"]));
    let mut overrides = BTreeMap::new();
    let mut docs = ToolOverride::empty();
    docs.cacheable = Some(true);
    overrides.insert("docs_*".to_string(), docs);
    let mut secret = ToolOverride::empty();
    secret.cacheable = Some(false);
    overrides.insert("docs_secret_*".to_string(), secret);
    let t = tools(classes, overrides);
    assert!(
        !resolve("docs_secret_dump", 3600, 0.0, &t).cacheable,
        "`docs_secret_*` (more literal characters) must beat `docs_*`"
    );
}

#[test]
fn set_class_and_set_override_keep_entries_sorted_by_key() {
    let mut config: ToolCacheConfig<f64> = ToolCacheConfig::new_default();
    config.set_class("zeta".to_string(), class(false, &["docs_*"]));
    config.set_class("alpha".to_string(), class(true, &["docs_*"]));
    config.set_class("mid".to_string(), class(true, &["other"]));
    config.set_class("mid".to_string(), class(true, &["mid_tool"]));
    let names: Vec<&str> = config.classes.iter().map(|(name, _)| name.as_str()).collect();
    assert_eq!(names, vec!["alpha", "mid", "zeta"]);
    assert_eq!(config.classes[1].1.members, vec!["mid_tool".to_string()]);
    // Equal wildcard ranks resolve to the class first in key order.
    assert!(resolve("docs_lookup", 60, 0.0, &config).cacheable);

    let mut quiet = ToolOverride::empty();
    quiet.cacheable = Some(false);
    config.set_override("docs_*".to_string(), quiet);
    let mut loud = ToolOverride::empty();
    loud.cacheable = Some(true);
    config.set_override("another".to_string(), loud);
    let keys: Vec<&str> = config.overrides.iter().map(|(name, _)| name.as_str()).collect();
    assert_eq!(keys, vec!["another", "docs_*"]);
    assert!(!resolve("docs_lookup", 60, 0.0, &config).cacheable);
}
