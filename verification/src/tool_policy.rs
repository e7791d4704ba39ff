//! Tool-result cache policy: class membership, per-tool overrides, and the
//! inheritance that resolves one effective policy for a tool name.
//!
//! Bypass rates are carried as an opaque value `R` (a probability in the
//! running program); resolution only chooses which configured rate applies.

use vstd::prelude::*;
use crate::text::{
    chars_eq, chars_lt, contains_char, lemma_seq_lt_irreflexive, lemma_seq_lt_transitive, lemma_seq_lt_trichotomy,
    seq_lt, to_chars,
};
use crate::wildcard::{best_spec, best_wildcard_match, is_best, competes};

verus! {

/// Policy shared by a class of tools.
pub struct ToolClass<R> {
    /// Whether class members may be served from cache.
    pub cacheable: bool,
    /// TTL in seconds; inherits the response-cache TTL when unset.
    pub ttl_seconds: Option<u64>,
    /// Live-rerun rate; inherits the response-cache rate when unset.
    pub bypass_rate: Option<R>,
    /// Version string folded into cache keys for members of this class.
    pub tool_version: Option<String>,
    /// Top-level argument keys dropped before keying.
    pub arg_skip: Vec<String>,
    /// Exact tool names, `prefix*`, `*suffix`, or `*contains*` patterns.
    pub members: Vec<String>,
}

/// Per-tool refinement applied after class resolution.
pub struct ToolOverride<R> {
    pub cacheable: Option<bool>,
    pub ttl_seconds: Option<u64>,
    pub bypass_rate: Option<R>,
    pub tool_version: Option<String>,
    /// Replaces the class argument skip list when set.
    pub arg_skip: Option<Vec<String>>,
}

/// Opt-in tool-result cache configuration. `classes` and `overrides` hold
/// the configured map entries, keyed by name; `wf` asks that the keys be
/// unique and in ascending order, as a sorted map holds them.
pub struct ToolCacheConfig<R> {
    /// Master switch; off by default.
    pub enabled: bool,
    /// Tool execution-intercept priority. Lower values run earlier.
    pub priority: i32,
    /// Whether conventional in-band tool error results may be stored.
    pub cache_errors: bool,
    /// Policy for unclassified tools; not cacheable by default.
    pub default: ToolClass<R>,
    /// Named tool classes.
    pub classes: Vec<(String, ToolClass<R>)>,
    /// Per-tool refinements keyed by exact name or wildcard pattern.
    pub overrides: Vec<(String, ToolOverride<R>)>,
}

/// The effective policy for one tool.
pub struct ResolvedToolPolicy<R> {
    pub cacheable: bool,
    pub ttl_seconds: u64,
    pub bypass_rate: R,
    pub arg_skip: Vec<String>,
    pub tool_version: Option<String>,
}

pub open spec fn opt_view(o: Option<String>) -> Option<Seq<char>> {
    match o {
        Some(s) => Some(s@),
        None => None,
    }
}

pub open spec fn strings_view(v: Seq<String>) -> Seq<Seq<char>> {
    v.map_values(|s: String| s@)
}

impl<R> ToolClass<R> {
    /// A class that caches nothing and sets nothing.
    pub fn empty() -> (class: Self)
        ensures
            !class.cacheable,
            class.ttl_seconds is None,
            class.bypass_rate is None,
            class.tool_version is None,
            class.arg_skip@.len() == 0,
            class.members@.len() == 0,
    {
        ToolClass {
            cacheable: false,
            ttl_seconds: None,
            bypass_rate: None,
            tool_version: None,
            arg_skip: Vec::new(),
            members: Vec::new(),
        }
    }
}

impl<R> ToolOverride<R> {
    /// An override that refines nothing.
    pub fn empty() -> (over: Self)
        ensures
            over.cacheable is None,
            over.ttl_seconds is None,
            over.bypass_rate is None,
            over.tool_version is None,
            over.arg_skip is None,
    {
        ToolOverride {
            cacheable: None,
            ttl_seconds: None,
            bypass_rate: None,
            tool_version: None,
            arg_skip: None,
        }
    }
}

/// The entries' keys are strictly ascending: unique, in sorted order.
pub open spec fn keys_ascending<V>(entries: Seq<(String, V)>) -> bool {
    forall|i: int, j: int| 0 <= i < j < entries.len() ==> seq_lt(#[trigger] entries[i].0@, #[trigger] entries[j].0@)
}

/// Sets the entry for `name` in ascending-keyed `entries`, as a sorted map
/// does: an entry with that key is replaced, else one is added at its place
/// in key order; every other entry stays.
fn insert_sorted<V>(entries: &mut Vec<(String, V)>, name: String, value: V)
    requires
        keys_ascending(old(entries)@),
    ensures
        keys_ascending(final(entries)@),
        exists|i: int| 0 <= i < final(entries)@.len() && final(entries)@[i].0@ == name@ && final(entries)@[i].1 == value,
        forall|j: int| 0 <= j < old(entries)@.len() && old(entries)@[j].0@ != name@
            ==> final(entries)@.contains(old(entries)@[j]),
        forall|j: int| 0 <= j < final(entries)@.len() && final(entries)@[j].0@ != name@
            ==> old(entries)@.contains(final(entries)@[j]),
        final(entries)@.len() == old(entries)@.len() + (if exists|j: int| 0 <= j < old(entries)@.len()
            && old(entries)@[j].0@ == name@ { 0int } else { 1int }),
{
    let key = to_chars(name.as_str());
    let ghost old_entries = entries@;
    let mut i: usize = 0;
    while i < entries.len()
        invariant
            key@ == name@,
            entries@ == old_entries,
            keys_ascending(old_entries),
            i <= old_entries.len(),
            forall|j: int| 0 <= j < i ==> seq_lt(#[trigger] old_entries[j].0@, name@),
        ensures
            key@ == name@,
            entries@ == old_entries,
            i <= old_entries.len(),
            forall|j: int| 0 <= j < i ==> seq_lt(#[trigger] old_entries[j].0@, name@),
            i < old_entries.len() ==> !seq_lt(old_entries[i as int].0@, name@),
        decreases entries.len() - i,
    {
        let k = to_chars(entries[i].0.as_str());
        if !chars_lt(k.as_slice(), key.as_slice()) {
            break;
        }
        i = i + 1;
    }
    // Every entry from `i` on has a key not below `name`.
    assert forall|j: int| i <= j < old_entries.len() implies !seq_lt(#[trigger] old_entries[j].0@, name@) by {
        if j > i {
            lemma_seq_lt_trichotomy(old_entries[i as int].0@, name@);
            assert(seq_lt(old_entries[i as int].0@, old_entries[j].0@));
            if old_entries[i as int].0@ != name@ {
                lemma_seq_lt_transitive(name@, old_entries[i as int].0@, old_entries[j].0@);
            }
            lemma_seq_lt_trichotomy(old_entries[j].0@, name@);
        }
    }
    let found = if i < entries.len() {
        let k = to_chars(entries[i].0.as_str());
        chars_eq(k.as_slice(), key.as_slice())
    } else {
        false
    };
    if found {
        let _ = entries.remove(i);
    }
    entries.insert(i, (name, value));
    let ghost fin = entries@;
    proof {
        assert(fin[i as int].0@ == key@);
        if found {
            assert(fin =~= old_entries.update(i as int, fin[i as int]));
            assert forall|a: int, b: int| 0 <= a < b < fin.len() implies seq_lt(#[trigger] fin[a].0@, #[trigger] fin[b].0@) by {
                if a == i {
                    assert(seq_lt(old_entries[a].0@, old_entries[b].0@));
                } else if b == i {
                    assert(seq_lt(old_entries[a].0@, old_entries[b].0@));
                }
            }
            assert forall|j: int| 0 <= j < old_entries.len() && old_entries[j].0@ != name@
                implies fin.contains(old_entries[j]) by {
                assert(j != i);
                assert(fin[j] == old_entries[j]);
            }
            assert forall|j: int| 0 <= j < fin.len() && fin[j].0@ != name@ implies old_entries.contains(fin[j]) by {
                assert(j != i);
                assert(fin[j] == old_entries[j]);
            }
        } else {
            assert(fin =~= old_entries.insert(i as int, fin[i as int]));
            assert forall|j: int| i <= j < old_entries.len() implies seq_lt(name@, #[trigger] old_entries[j].0@) by {
                lemma_seq_lt_trichotomy(old_entries[j].0@, name@);
                if old_entries[j].0@ == name@ {
                    if j > i {
                        lemma_seq_lt_trichotomy(old_entries[i as int].0@, name@);
                        assert(seq_lt(old_entries[i as int].0@, old_entries[j].0@));
                        if old_entries[i as int].0@ != name@ {
                            lemma_seq_lt_transitive(name@, old_entries[i as int].0@, old_entries[j].0@);
                            lemma_seq_lt_irreflexive(name@);
                        }
                    }
                }
            }
            assert forall|a: int, b: int| 0 <= a < b < fin.len() implies seq_lt(#[trigger] fin[a].0@, #[trigger] fin[b].0@) by {
                if a < i && b == i {
                } else if a < i && b > i {
                    assert(fin[b] == old_entries[b - 1]);
                    assert(seq_lt(old_entries[a].0@, old_entries[b - 1].0@));
                } else if a == i {
                    assert(fin[b] == old_entries[b - 1]);
                } else if a > i {
                    assert(fin[a] == old_entries[a - 1]);
                    assert(fin[b] == old_entries[b - 1]);
                } else {
                    assert(fin[a] == old_entries[a]);
                    assert(fin[b] == old_entries[b]);
                }
            }
            assert forall|j: int| 0 <= j < old_entries.len() && old_entries[j].0@ != name@
                implies fin.contains(old_entries[j]) by {
                if j < i {
                    assert(fin[j] == old_entries[j]);
                } else {
                    assert(fin[j + 1] == old_entries[j]);
                }
            }
            assert forall|j: int| 0 <= j < fin.len() && fin[j].0@ != name@ implies old_entries.contains(fin[j]) by {
                if j < i {
                    assert(fin[j] == old_entries[j]);
                } else {
                    assert(j != i);
                    assert(fin[j] == old_entries[j - 1]);
                }
            }
            assert(!exists|j: int| 0 <= j < old_entries.len() && old_entries[j].0@ == name@) by {
                assert forall|j: int| 0 <= j < old_entries.len() implies old_entries[j].0@ != name@ by {
                    if j < i {
                        lemma_seq_lt_irreflexive(name@);
                    } else {
                        assert(seq_lt(name@, old_entries[j].0@));
                        lemma_seq_lt_irreflexive(name@);
                    }
                }
            }
        }
    }
}

impl<R> ToolCacheConfig<R> {
    /// Classes and overrides are each keyed by unique names in ascending order.
    pub open spec fn wf(&self) -> bool {
        keys_ascending(self.classes@) && keys_ascending(self.overrides@)
    }

    /// Sets the class named `name`, replacing one of that name.
    pub fn set_class(&mut self, name: String, class: ToolClass<R>)
        requires
            old(self).wf(),
        ensures
            final(self).wf(),
            exists|i: int| 0 <= i < final(self).classes@.len() && final(self).classes@[i].0@ == name@
                && final(self).classes@[i].1 == class,
            forall|j: int| 0 <= j < old(self).classes@.len() && old(self).classes@[j].0@ != name@
                ==> final(self).classes@.contains(old(self).classes@[j]),
            forall|j: int| 0 <= j < final(self).classes@.len() && final(self).classes@[j].0@ != name@
                ==> old(self).classes@.contains(final(self).classes@[j]),
            final(self).overrides == old(self).overrides,
            final(self).default == old(self).default,
            final(self).enabled == old(self).enabled,
            final(self).priority == old(self).priority,
            final(self).cache_errors == old(self).cache_errors,
    {
        insert_sorted(&mut self.classes, name, class);
    }

    /// Sets the override keyed by `name`, replacing one with that key.
    pub fn set_override(&mut self, name: String, over: ToolOverride<R>)
        requires
            old(self).wf(),
        ensures
            final(self).wf(),
            exists|i: int| 0 <= i < final(self).overrides@.len() && final(self).overrides@[i].0@ == name@
                && final(self).overrides@[i].1 == over,
            forall|j: int| 0 <= j < old(self).overrides@.len() && old(self).overrides@[j].0@ != name@
                ==> final(self).overrides@.contains(old(self).overrides@[j]),
            forall|j: int| 0 <= j < final(self).overrides@.len() && final(self).overrides@[j].0@ != name@
                ==> old(self).overrides@.contains(final(self).overrides@[j]),
            final(self).classes == old(self).classes,
            final(self).default == old(self).default,
            final(self).enabled == old(self).enabled,
            final(self).priority == old(self).priority,
            final(self).cache_errors == old(self).cache_errors,
    {
        insert_sorted(&mut self.overrides, name, over);
    }

    /// The default configuration: disabled, priority 100, errors not cached,
    /// an uncacheable default class and no classes or overrides.
    pub fn new_default() -> (config: Self)
        ensures
            config.wf(),
            !config.enabled,
            config.priority == 100,
            !config.cache_errors,
            !config.default.cacheable,
            config.default.ttl_seconds is None,
            config.default.bypass_rate is None,
            config.default.tool_version is None,
            config.default.arg_skip@.len() == 0,
            config.default.members@.len() == 0,
            config.classes@.len() == 0,
            config.overrides@.len() == 0,
    {
        ToolCacheConfig {
            enabled: false,
            priority: 100,
            cache_errors: false,
            default: ToolClass::empty(),
            classes: Vec::new(),
            overrides: Vec::new(),
        }
    }
}

/// A class lists `name` as an exact member (a member without `*`).
pub open spec fn exact_member<R>(class: ToolClass<R>, name: Seq<char>) -> bool {
    exists|k: int| 0 <= k < class.members@.len() && class.members@[k]@ == name
        && !name.contains('*')
}

/// Every (member pattern, class position) pair, class by class in order.
pub open spec fn flatten<R>(classes: Seq<(String, ToolClass<R>)>) -> Seq<(Seq<char>, int)>
    decreases classes.len(),
{
    if classes.len() == 0 {
        Seq::empty()
    } else {
        let last = classes.len() - 1;
        flatten(classes.drop_last()) + classes.last().1.members@.map_values(
            |m: String| (m@, last),
        )
    }
}

pub open spec fn flat_patterns(flat: Seq<(Seq<char>, int)>) -> Seq<Seq<char>> {
    flat.map_values(|x: (Seq<char>, int)| x.0)
}

/// The class a tool resolves to: the first class (in key order, for a
/// well-formed configuration) with an exact member, else the class of the
/// most specific matching wildcard member, ties going to the earlier class,
/// else none.
pub open spec fn resolve_class_spec<R>(
    classes: Seq<(String, ToolClass<R>)>,
    name: Seq<char>,
    r: Option<usize>,
) -> bool {
    if exists|i: int| 0 <= i < classes.len() && exact_member(classes[i].1, name) {
        match r {
            Some(i) => i < classes.len() && exact_member(classes[i as int].1, name)
                && forall|j: int| 0 <= j < i ==> !exact_member(classes[j].1, name),
            None => false,
        }
    } else {
        let flat = flatten(classes);
        match r {
            Some(c) => exists|b: int| is_best(flat_patterns(flat), name, b) && flat[b].1 == c,
            None => forall|b: int| 0 <= b < flat.len() ==> !competes(flat[b].0, name),
        }
    }
}

/// The override a tool resolves to: the first entry keyed by exactly the
/// name, else the entry of the most specific matching wildcard key.
pub open spec fn resolve_override_spec<R>(
    overrides: Seq<(String, ToolOverride<R>)>,
    name: Seq<char>,
    r: Option<usize>,
) -> bool {
    if exists|i: int| 0 <= i < overrides.len() && overrides[i].0@ == name {
        match r {
            Some(i) => i < overrides.len() && overrides[i as int].0@ == name
                && forall|j: int| 0 <= j < i ==> overrides[j].0@ != name,
            None => false,
        }
    } else {
        best_spec(overrides.map_values(|e: (String, ToolOverride<R>)| e.0@), name, r)
    }
}

proof fn lemma_flatten_prefix<R>(classes: Seq<(String, ToolClass<R>)>, i: int)
    requires
        0 <= i < classes.len(),
    ensures
        flatten(classes.take(i + 1)) == flatten(classes.take(i)) + classes[i].1.members@.map_values(
            |m: String| (m@, i),
        ),
{
    assert(classes.take(i + 1).drop_last() =~= classes.take(i));
}

proof fn lemma_flatten_owner<R>(classes: Seq<(String, ToolClass<R>)>, b: int)
    requires
        0 <= b < flatten(classes).len(),
    ensures
        0 <= flatten(classes)[b].1 < classes.len(),
    decreases classes.len(),
{
    let prev = flatten(classes.drop_last());
    if b < prev.len() {
        lemma_flatten_owner(classes.drop_last(), b);
    }
}

/// Resolves the class of `tool_name`, as a position in `tools.classes`.
pub fn resolve_class<R>(tool_name: &str, tools: &ToolCacheConfig<R>) -> (class: Option<usize>)
    requires
        tools.wf(),
    ensures
        resolve_class_spec(tools.classes@, tool_name@, class),
        match class {
            Some(i) => i < tools.classes@.len(),
            None => true,
        },
{
    let name = to_chars(tool_name);
    let name_has_star = contains_char(name.as_slice(), '*');
    let mut i: usize = 0;
    while i < tools.classes.len()
        invariant
            name@ == tool_name@,
            name_has_star == tool_name@.contains('*'),
            i <= tools.classes@.len(),
            forall|j: int| 0 <= j < i ==> !exact_member(tools.classes@[j].1, tool_name@),
        decreases tools.classes.len() - i,
    {
        let members = &tools.classes[i].1.members;
        let mut k: usize = 0;
        while k < members.len()
            invariant
                name@ == tool_name@,
                name_has_star == tool_name@.contains('*'),
                members == tools.classes@[i as int].1.members,
                k <= members@.len(),
                i < tools.classes@.len(),
                forall|j: int| 0 <= j < i ==> !exact_member(tools.classes@[j].1, tool_name@),
                forall|t: int| 0 <= t < k ==> !(members@[t]@ == tool_name@ && !tool_name@.contains('*')),
            decreases members.len() - k,
        {
            let member = to_chars(members[k].as_str());
            if !name_has_star && chars_eq(member.as_slice(), name.as_slice()) {
                assert(tools.classes@[i as int].1.members@[k as int]@ == tool_name@);
                assert(exact_member(tools.classes@[i as int].1, tool_name@));
                assert(exists|x: int| 0 <= x < tools.classes@.len() && exact_member(tools.classes@[x].1, tool_name@));
                return Some(i);
            }
            k = k + 1;
        }
        i = i + 1;
    }
    // Flatten every (member, class) pair in order.
    let ghost classes = tools.classes@;
    let mut patterns: Vec<Vec<char>> = Vec::new();
    let mut owners: Vec<usize> = Vec::new();
    let mut c: usize = 0;
    while c < tools.classes.len()
        invariant
            classes == tools.classes@,
            c <= classes.len(),
            patterns@.len() == flatten(classes.take(c as int)).len(),
            owners@.len() == patterns@.len(),
            forall|t: int| 0 <= t < patterns@.len() ==> #[trigger] patterns@[t]@ == flatten(classes.take(c as int))[t].0,
            forall|t: int| 0 <= t < patterns@.len() ==> #[trigger] owners@[t] as int == flatten(classes.take(c as int))[t].1,
        decreases tools.classes.len() - c,
    {
        proof {
            lemma_flatten_prefix(classes, c as int);
        }
        let members = &tools.classes[c].1.members;
        let ghost base = flatten(classes.take(c as int));
        let mut k: usize = 0;
        while k < members.len()
            invariant
                members == classes[c as int].1.members,
                c < classes.len(),
                k <= members@.len(),
                base == flatten(classes.take(c as int)),
                patterns@.len() == base.len() + k,
                owners@.len() == patterns@.len(),
                forall|t: int| 0 <= t < base.len() ==> #[trigger] patterns@[t]@ == base[t].0,
                forall|t: int| 0 <= t < base.len() ==> #[trigger] owners@[t] as int == base[t].1,
                forall|t: int| base.len() <= t < base.len() + k ==> #[trigger] patterns@[t]@ == members@[t - base.len()]@,
                forall|t: int| base.len() <= t < base.len() + k ==> #[trigger] owners@[t] == c,
            decreases members.len() - k,
        {
            patterns.push(to_chars(members[k].as_str()));
            owners.push(c);
            k = k + 1;
        }
        assert forall|t: int| 0 <= t < patterns@.len() implies #[trigger] patterns@[t]@ == flatten(classes.take(c + 1))[t].0 by {
        }
        assert forall|t: int| 0 <= t < patterns@.len() implies #[trigger] owners@[t] as int == flatten(classes.take(c + 1))[t].1 by {
        }
        c = c + 1;
    }
    assert(classes.take(classes.len() as int) =~= classes);
    let ghost flat = flatten(classes);
    assert(patterns@.map_values(|p: Vec<char>| p@) =~= flat_patterns(flat));
    proof {
        assert(!(exists|i: int| 0 <= i < classes.len() && exact_member(classes[i].1, tool_name@)));
    }
    match best_wildcard_match(&patterns, name.as_slice()) {
        Some(b) => {
            proof {
                lemma_flatten_owner(classes, b as int);
            }
            Some(owners[b])
        },
        None => {
            assert forall|b: int| 0 <= b < flat.len() implies !competes(flat[b].0, tool_name@) by {
                assert(flat_patterns(flat)[b] == flat[b].0);
            }
            None
        },
    }
}

/// Resolves the override of `tool_name`, as a position in `tools.overrides`.
pub fn resolve_override<R>(tool_name: &str, tools: &ToolCacheConfig<R>) -> (over: Option<usize>)
    requires
        tools.wf(),
    ensures
        resolve_override_spec(tools.overrides@, tool_name@, over),
        match over {
            Some(i) => i < tools.overrides@.len(),
            None => true,
        },
{
    let name = to_chars(tool_name);
    let ghost keys = tools.overrides@.map_values(|e: (String, ToolOverride<R>)| e.0@);
    let mut i: usize = 0;
    let mut patterns: Vec<Vec<char>> = Vec::new();
    while i < tools.overrides.len()
        invariant
            name@ == tool_name@,
            keys == tools.overrides@.map_values(|e: (String, ToolOverride<R>)| e.0@),
            i <= tools.overrides@.len(),
            patterns@.len() == i,
            forall|j: int| 0 <= j < i ==> tools.overrides@[j].0@ != tool_name@,
            forall|j: int| 0 <= j < i ==> patterns@[j]@ == keys[j],
        decreases tools.overrides.len() - i,
    {
        let key = to_chars(tools.overrides[i].0.as_str());
        if chars_eq(key.as_slice(), name.as_slice()) {
            return Some(i);
        }
        patterns.push(key);
        i = i + 1;
    }
    assert(patterns@.map_values(|p: Vec<char>| p@) =~= keys);
    best_wildcard_match(&patterns, name.as_slice())
}

/// Copies a list of strings.
pub fn clone_strings(v: &Vec<String>) -> (out: Vec<String>)
    ensures
        out@ == v@,
{
    let mut out: Vec<String> = Vec::new();
    let mut i: usize = 0;
    while i < v.len()
        invariant
            i <= v@.len(),
            out@ == v@.take(i as int),
        decreases v.len() - i,
    {
        out.push(v[i].clone());
        assert(v@.take(i + 1) =~= v@.take(i as int).push(v@[i as int]));
        i = i + 1;
    }
    assert(v@.take(v@.len() as int) =~= v@);
    out
}

/// Copies an optional string.
pub fn clone_opt_string(o: &Option<String>) -> (out: Option<String>)
    ensures
        out == *o,
{
    match o {
        Some(s) => Some(s.clone()),
        None => None,
    }
}

/// The effective policy given the resolved class and override: each field
/// comes from the override when it sets it, else the class, else the
/// response-cache default; an override skip list replaces the class list.
pub open spec fn merged_policy<R>(
    class: ToolClass<R>,
    over: Option<ToolOverride<R>>,
    parent_ttl: u64,
    parent_rate: R,
) -> (bool, u64, R, Seq<String>, Option<String>) {
    let o = match over {
        Some(o) => o,
        None => ToolOverride {
            cacheable: None,
            ttl_seconds: None,
            bypass_rate: None,
            tool_version: None,
            arg_skip: None,
        },
    };
    (
        match o.cacheable { Some(v) => v, None => class.cacheable },
        match o.ttl_seconds { Some(v) => v, None => match class.ttl_seconds { Some(v) => v, None => parent_ttl } },
        match o.bypass_rate { Some(v) => v, None => match class.bypass_rate { Some(v) => v, None => parent_rate } },
        match o.arg_skip { Some(v) => v@, None => class.arg_skip@ },
        match o.tool_version { Some(v) => Some(v), None => class.tool_version },
    )
}

/// Merging, field by field: an override's setting wins; otherwise the
/// class's; the TTL and bypass rate fall back to the response cache's. An
/// override's skip list replaces the class's (an empty one clears it).
pub proof fn lemma_override_then_class_then_parent<R>(
    class: ToolClass<R>,
    over: ToolOverride<R>,
    parent_ttl: u64,
    parent_rate: R,
)
    ensures
        ({
            let m = merged_policy(class, Some(over), parent_ttl, parent_rate);
            let c = merged_policy(class, None, parent_ttl, parent_rate);
            &&& m.0 == (if over.cacheable is Some { over.cacheable->0 } else { class.cacheable })
            &&& m.1 == (if over.ttl_seconds is Some { over.ttl_seconds->0 }
                else if class.ttl_seconds is Some { class.ttl_seconds->0 } else { parent_ttl })
            &&& m.2 == (if over.bypass_rate is Some { over.bypass_rate->0 }
                else if class.bypass_rate is Some { class.bypass_rate->0 } else { parent_rate })
            &&& m.3 == (if over.arg_skip is Some { over.arg_skip->0@ } else { class.arg_skip@ })
            &&& m.4 == (if over.tool_version is Some { over.tool_version } else { class.tool_version })
            &&& c.0 == class.cacheable && c.3 == class.arg_skip@ && c.4 == class.tool_version
            &&& c.1 == (if class.ttl_seconds is Some { class.ttl_seconds->0 } else { parent_ttl })
            &&& c.2 == (if class.bypass_rate is Some { class.bypass_rate->0 } else { parent_rate })
        }),
{
}

/// With unique keys, an override keyed by exactly the tool's name is the
/// one resolved, whatever wildcard keys also match; and a class listing the
/// name as an exact member is resolved when no class before it does.
pub proof fn lemma_exact_names_win<R>(tools: ToolCacheConfig<R>, name: Seq<char>, i: int, r: Option<usize>, c: int, rc: Option<usize>)
    requires
        tools.wf(),
    ensures
        0 <= i < tools.overrides@.len() && tools.overrides@[i].0@ == name
            && resolve_override_spec(tools.overrides@, name, r) ==> r == Some(i as usize),
        0 <= c < tools.classes@.len() && !name.contains('*')
            && (exists|k: int| 0 <= k < tools.classes@[c].1.members@.len() && tools.classes@[c].1.members@[k]@ == name)
            && (forall|j: int| 0 <= j < c ==> !exact_member(#[trigger] tools.classes@[j].1, name))
            && resolve_class_spec(tools.classes@, name, rc) ==> rc == Some(c as usize),
{
    if 0 <= i < tools.overrides@.len() && tools.overrides@[i].0@ == name && resolve_override_spec(tools.overrides@, name, r) {
        let j = r->0 as int;
        if j != i {
            if j < i {
                lemma_seq_lt_irreflexive(name);
                assert(seq_lt(tools.overrides@[j].0@, tools.overrides@[i].0@));
            } else {
                lemma_seq_lt_irreflexive(name);
                assert(seq_lt(tools.overrides@[i].0@, tools.overrides@[j].0@));
            }
        }
    }
    if 0 <= c < tools.classes@.len() && !name.contains('*')
        && (exists|k: int| 0 <= k < tools.classes@[c].1.members@.len() && tools.classes@[c].1.members@[k]@ == name)
        && (forall|j: int| 0 <= j < c ==> !exact_member(#[trigger] tools.classes@[j].1, name))
        && resolve_class_spec(tools.classes@, name, rc) {
        assert(exact_member(tools.classes@[c].1, name));
        let j = rc->0 as int;
        if j > c {
            assert(!exact_member(tools.classes@[c].1, name));
        }
    }
}

impl<R> ResolvedToolPolicy<R> {
    pub open spec fn view_tuple(&self) -> (bool, u64, R, Seq<String>, Option<String>) {
        (self.cacheable, self.ttl_seconds, self.bypass_rate, self.arg_skip@, self.tool_version)
    }
}

/// Combines a class and an optional override with the response-cache TTL
/// and bypass rate into the effective policy.
pub fn merge_policy<R: Copy>(
    class: &ToolClass<R>,
    over: Option<&ToolOverride<R>>,
    parent_ttl: u64,
    parent_rate: R,
) -> (policy: ResolvedToolPolicy<R>)
    ensures
        policy.view_tuple() == merged_policy(*class, match over { Some(o) => Some(*o), None => None }, parent_ttl, parent_rate),
{
    let cacheable = match over {
        Some(o) => match o.cacheable { Some(v) => v, None => class.cacheable },
        None => class.cacheable,
    };
    let ttl_seconds = match over {
        Some(o) if o.ttl_seconds.is_some() => o.ttl_seconds.unwrap(),
        _ => match class.ttl_seconds { Some(v) => v, None => parent_ttl },
    };
    let bypass_rate = match over {
        Some(o) if o.bypass_rate.is_some() => o.bypass_rate.unwrap(),
        _ => match class.bypass_rate { Some(v) => v, None => parent_rate },
    };
    let arg_skip = match over {
        Some(o) if o.arg_skip.is_some() => clone_strings(o.arg_skip.as_ref().unwrap()),
        _ => clone_strings(&class.arg_skip),
    };
    let tool_version = match over {
        Some(o) if o.tool_version.is_some() => clone_opt_string(&o.tool_version),
        _ => clone_opt_string(&class.tool_version),
    };
    ResolvedToolPolicy { cacheable, ttl_seconds, bypass_rate, arg_skip, tool_version }
}

/// The class a resolution picks: the resolved class or the default one.
pub open spec fn class_of<R>(tools: ToolCacheConfig<R>, c: Option<usize>) -> ToolClass<R> {
    match c {
        Some(i) => tools.classes@[i as int].1,
        None => tools.default,
    }
}

pub open spec fn override_of<R>(tools: ToolCacheConfig<R>, o: Option<usize>) -> Option<ToolOverride<R>> {
    match o {
        Some(i) => Some(tools.overrides@[i as int].1),
        None => None,
    }
}

/// Resolves the effective cache policy of `tool_name`.
pub fn resolve_policy<R: Copy>(
    tool_name: &str,
    parent_ttl_seconds: u64,
    parent_bypass_rate: R,
    tools: &ToolCacheConfig<R>,
) -> (policy: ResolvedToolPolicy<R>)
    requires
        tools.wf(),
    ensures
        exists|c: Option<usize>, o: Option<usize>|
            resolve_class_spec(tools.classes@, tool_name@, c)
            && resolve_override_spec(tools.overrides@, tool_name@, o)
            && (match c { Some(i) => i < tools.classes@.len(), None => true })
            && (match o { Some(i) => i < tools.overrides@.len(), None => true })
            && policy.view_tuple() == merged_policy(
                class_of(*tools, c),
                override_of(*tools, o),
                parent_ttl_seconds,
                parent_bypass_rate,
            ),
{
    let c = resolve_class(tool_name, tools);
    let o = resolve_override(tool_name, tools);
    let class = match c {
        Some(i) => &tools.classes[i].1,
        None => &tools.default,
    };
    let over = match o {
        Some(i) => Some(&tools.overrides[i].1),
        None => None,
    };
    let policy = merge_policy(class, over, parent_ttl_seconds, parent_bypass_rate);
    assert(class_of(*tools, c) == *class);
    assert(override_of(*tools, o) == match over { Some(x) => Some(*x), None => None::<ToolOverride<R>> });
    assert(resolve_class_spec(tools.classes@, tool_name@, c) && resolve_override_spec(tools.overrides@, tool_name@, o));
    policy
}

} // verus!
