//! Non-destructive merging of generated lifecycle hooks into an agent's
//! hook configuration, and the choice of gateway a hook forwards to.

use vstd::prelude::*;
use vstd::string::StringExecFns;
use crate::errors::CliError;
use crate::json::{
    entries_get, jget, json_clone, json_eq, lemma_arr_view, lemma_obj_view, arr_view, obj_view,
    Json, JsonV,
};
use crate::text::{chars_eq, to_chars};

verus! {

pub type Entries = Seq<(Seq<char>, JsonV)>;

/// `existing` followed by each group of `groups` that is not already
/// present (compared exactly), in order.
pub open spec fn append_missing(existing: Seq<JsonV>, groups: Seq<JsonV>) -> Seq<JsonV>
    decreases groups.len(),
{
    if groups.len() == 0 {
        existing
    } else {
        let before = append_missing(existing, groups.drop_last());
        if before.contains(groups.last()) { before } else { before.push(groups.last()) }
    }
}

/// The entries with the first entry named `key` given `value`, or with
/// `(key, value)` appended when there is none.
pub open spec fn entries_set(entries: Entries, key: Seq<char>, value: JsonV) -> Entries
    decreases entries.len(),
{
    if entries.len() == 0 {
        seq![(key, value)]
    } else if entries[0].0 == key {
        entries.update(0, (key, value))
    } else {
        seq![entries[0]] + entries_set(entries.drop_first(), key, value)
    }
}

pub const GROUPS_MALFORMED: &'static str = "generated hook groups were malformed";

/// Merging the generated groups of one event into the `hooks` entries.
pub open spec fn merge_event_spec(hooks: Entries, event: Seq<char>, groups: JsonV) -> Result<Entries, Seq<char>> {
    match groups {
        JsonV::Arr(gs) => match entries_get(hooks, event) {
            None => Ok(entries_set(hooks, event, JsonV::Arr(append_missing(Seq::empty(), gs)))),
            Some(JsonV::Arr(current)) => Ok(entries_set(hooks, event, JsonV::Arr(append_missing(current, gs)))),
            Some(_) => Err(event + " hooks must be an array"@),
        },
        _ => Err(GROUPS_MALFORMED@),
    }
}

/// Merging every generated event, in order; the first failure stops.
pub open spec fn merge_events_spec(hooks: Entries, generated: Entries) -> Result<Entries, Seq<char>>
    decreases generated.len(),
{
    if generated.len() == 0 {
        Ok(hooks)
    } else {
        match merge_event_spec(hooks, generated[0].0, generated[0].1) {
            Ok(next) => merge_events_spec(next, generated.drop_first()),
            Err(e) => Err(e),
        }
    }
}

pub const ROOT_NOT_OBJECT: &'static str = "hook config must be a JSON object";

pub const HOOKS_NOT_OBJECT: &'static str = "hooks must be a JSON object";

pub const GENERATED_MALFORMED: &'static str = "generated hooks were malformed";

/// Merging generated hooks into an existing configuration (null when the
/// file is missing). Existing entries and groups are kept; only missing
/// generated groups are appended. On failure, the error text.
pub open spec fn merge_hooks_spec(existing: JsonV, generated: JsonV) -> Result<JsonV, Seq<char>> {
    let root: Option<Entries> = match existing {
        JsonV::Null => Some(Seq::empty()),
        JsonV::Obj(es) => Some(es),
        _ => None,
    };
    match root {
        None => Err(ROOT_NOT_OBJECT@),
        Some(es) => {
            let hooks = match entries_get(es, "hooks"@) {
                Some(h) => h,
                None => JsonV::Obj(Seq::empty()),
            };
            match hooks {
                JsonV::Obj(hs) => match jget(generated, "hooks"@) {
                    Some(JsonV::Obj(gen)) => match merge_events_spec(hs, gen) {
                        Ok(merged) => Ok(JsonV::Obj(entries_set(es, "hooks"@, JsonV::Obj(merged)))),
                        Err(e) => Err(e),
                    },
                    _ => Err(GENERATED_MALFORMED@),
                },
                _ => Err(HOOKS_NOT_OBJECT@),
            }
        },
    }
}

/// The position of the first entry named `key`.
fn find_entry(entries: &Vec<(String, Json)>, key: &str) -> (found: Option<usize>)
    ensures
        match found {
            Some(i) => i < entries@.len() && entries@[i as int].0@ == key@
                && forall|j: int| 0 <= j < i ==> entries@[j].0@ != key@,
            None => forall|j: int| 0 <= j < entries@.len() ==> entries@[j].0@ != key@,
        },
{
    let k = to_chars(key);
    let mut i: usize = 0;
    while i < entries.len()
        invariant
            i <= entries@.len(),
            k@ == key@,
            forall|j: int| 0 <= j < i ==> entries@[j].0@ != key@,
        decreases entries.len() - i,
    {
        let name = to_chars(entries[i].0.as_str());
        if chars_eq(name.as_slice(), k.as_slice()) {
            return Some(i);
        }
        i = i + 1;
    }
    None
}

proof fn lemma_get_first(es: Entries, key: Seq<char>, i: int)
    requires
        0 <= i < es.len(),
        es[i].0 == key,
        forall|j: int| 0 <= j < i ==> es[j].0 != key,
    ensures
        entries_get(es, key) == Some(es[i].1),
        entries_set(es, key, es[i].1) == es,
        forall|v: JsonV| entries_set(es, key, v) == #[trigger] es.update(i, (key, v)),
    decreases i,
{
    if i > 0 {
        lemma_get_first(es.drop_first(), key, i - 1);
        assert forall|v: JsonV| entries_set(es, key, v) == #[trigger] es.update(i, (key, v)) by {
            assert(entries_set(es.drop_first(), key, v) == es.drop_first().update(i - 1, (key, v)));
            assert(seq![es[0]] + es.drop_first().update(i - 1, (key, v)) =~= es.update(i, (key, v)));
        }
        assert(seq![es[0]] + es.drop_first() =~= es);
    } else {
        assert(es.update(0, (key, es[0].1)) =~= es);
    }
}

proof fn lemma_get_absent(es: Entries, key: Seq<char>)
    requires
        forall|j: int| 0 <= j < es.len() ==> es[j].0 != key,
    ensures
        entries_get(es, key) is None,
        forall|v: JsonV| entries_set(es, key, v) == #[trigger] es.push((key, v)),
    decreases es.len(),
{
    if es.len() > 0 {
        lemma_get_absent(es.drop_first(), key);
        assert forall|v: JsonV| entries_set(es, key, v) == #[trigger] es.push((key, v)) by {
            assert(seq![es[0]] + es.drop_first().push((key, v)) =~= es.push((key, v)));
        }
    } else {
        assert forall|v: JsonV| entries_set(es, key, v) == #[trigger] es.push((key, v)) by {
            assert(seq![(key, v)] =~= es.push((key, v)));
        }
    }
}

/// Whether `items` holds a value equal to `group`.
fn contains_group(items: &Vec<Json>, group: &Json) -> (found: bool)
    ensures
        found == arr_view(*items, items@.len() as int).contains(group@),
{
    proof {
        lemma_arr_view(*items, items@.len() as int);
    }
    let ghost view = arr_view(*items, items@.len() as int);
    let mut i: usize = 0;
    while i < items.len()
        invariant
            i <= items@.len(),
            view == arr_view(*items, items@.len() as int),
            view.len() == items@.len(),
            forall|t: int| 0 <= t < items@.len() ==> #[trigger] view[t] == json_view_of(items@[t]),
            forall|t: int| 0 <= t < i ==> view[t] != group@,
        decreases items.len() - i,
    {
        if json_eq(&items[i], group) {
            assert(view[i as int] == group@);
            return true;
        }
        i = i + 1;
    }
    false
}

pub open spec fn json_view_of(j: Json) -> JsonV {
    j@
}

/// Appends to `items` each group of `groups` it does not yet hold.
fn append_missing_groups(items: &mut Vec<Json>, groups: &Vec<Json>)
    ensures
        arr_view(*final(items), final(items)@.len() as int)
            == append_missing(arr_view(*old(items), old(items)@.len() as int), arr_view(*groups, groups@.len() as int)),
{
    proof {
        lemma_arr_view(*groups, groups@.len() as int);
        lemma_arr_view(*items, items@.len() as int);
    }
    let ghost start = arr_view(*items, items@.len() as int);
    let ghost gs = arr_view(*groups, groups@.len() as int);
    let mut k: usize = 0;
    while k < groups.len()
        invariant
            k <= groups@.len(),
            gs == arr_view(*groups, groups@.len() as int),
            gs.len() == groups@.len(),
            forall|t: int| 0 <= t < groups@.len() ==> #[trigger] gs[t] == json_view_of(groups@[t]),
            arr_view(*items, items@.len() as int) == append_missing(start, gs.subrange(0, k as int)),
        decreases groups.len() - k,
    {
        let ghost before = arr_view(*items, items@.len() as int);
        assert(gs.subrange(0, k + 1).drop_last() =~= gs.subrange(0, k as int));
        assert(gs.subrange(0, k + 1).last() == gs[k as int]);
        if !contains_group(items, &groups[k]) {
            let ghost prev = *items;
            proof {
                lemma_arr_view(prev, prev@.len() as int);
            }
            let g = json_clone(&groups[k]);
            items.push(g);
            proof {
                lemma_arr_view(*items, items@.len() as int);
                assert(arr_view(*items, items@.len() as int) =~= before.push(gs[k as int])) by {
                    assert forall|t: int| 0 <= t < before.len() implies arr_view(*items, items@.len() as int)[t] == before[t] by {
                        assert(items@[t] == prev@[t]);
                    }
                }
            }
        }
        k = k + 1;
    }
    assert(gs.subrange(0, groups@.len() as int) =~= gs);
}


/// The entries a vector of named values holds.
pub open spec fn entries_of(v: Vec<(String, Json)>) -> Entries {
    obj_view(v, v@.len() as int)
}

proof fn lemma_entries_match(v: Vec<(String, Json)>, s: Entries)
    requires
        v@.len() == s.len(),
        forall|i: int| 0 <= i < s.len() ==> (#[trigger] v@[i].0@, json_view_of(v@[i].1)) == s[i],
    ensures
        entries_of(v) == s,
{
    lemma_obj_view(v, v@.len() as int);
    assert(obj_view(v, v@.len() as int) =~= s);
}

/// Merges the generated groups of one event into `hooks`.
fn merge_event_hook_groups(hooks: &mut Vec<(String, Json)>, event: &String, groups: &Json) -> (r: Result<(), CliError>)
    ensures
        match merge_event_spec(entries_of(*old(hooks)), event@, groups@) {
            Ok(merged) => r is Ok && entries_of(*final(hooks)) == merged,
            Err(e) => r matches Err(CliError::Install(m)) && m@ == e,
        },
{
    let gs = match groups {
        Json::Array(gs) => gs,
        _ => return Err(CliError::Install(GROUPS_MALFORMED.to_owned())),
    };
    proof {
        lemma_obj_view(*hooks, hooks@.len() as int);
        lemma_arr_view(*gs, gs@.len() as int);
    }
    let ghost es = entries_of(*hooks);
    let ghost prev = *hooks;
    match find_entry(hooks, event.as_str()) {
        None => {
            proof { lemma_get_absent(es, event@); }
            let mut items: Vec<Json> = Vec::new();
            proof { lemma_arr_view(items, 0); assert(arr_view(items, 0) =~= Seq::<JsonV>::empty()); }
            append_missing_groups(&mut items, gs);
            let value = Json::Array(items);
            hooks.push((event.clone(), value));
            proof {
                lemma_entries_match(*hooks, es.push((event@, value@)));
            }
            Ok(())
        },
        Some(i) => {
            proof { lemma_get_first(es, event@, i as int); }
            let is_array = match &hooks[i].1 {
                Json::Array(_) => true,
                _ => false,
            };
            if !is_array {
                let mut m = event.clone();
                m.append(" hooks must be an array");
                return Err(CliError::Install(m));
            }
            let (name, value) = hooks.remove(i);
            match value {
                Json::Array(mut items) => {
                    proof { lemma_arr_view(items, items@.len() as int); }
                    append_missing_groups(&mut items, gs);
                    let merged = Json::Array(items);
                    let ghost mv = merged@;
                    hooks.insert(i, (name, merged));
                    proof {
                        assert forall|t: int| 0 <= t < es.len() implies
                            (#[trigger] hooks@[t].0@, json_view_of(hooks@[t].1)) == es.update(i as int, (event@, mv))[t] by {
                            if t != i {
                                assert(hooks@[t] == prev@[t]);
                            }
                        }
                        lemma_entries_match(*hooks, es.update(i as int, (event@, mv)));
                    }
                    Ok(())
                },
                _ => Err(CliError::Install(GROUPS_MALFORMED.to_owned())),
            }
        },
    }
}

proof fn lemma_merge_events_step(hooks: Entries, generated: Entries, k: int)
    requires
        0 <= k < generated.len(),
    ensures
        merge_events_spec(hooks, generated.subrange(k, generated.len() as int)) == match merge_event_spec(hooks, generated[k].0, generated[k].1) {
            Ok(next) => merge_events_spec(next, generated.subrange(k + 1, generated.len() as int)),
            Err(e) => Err(e),
        },
{
    let rest = generated.subrange(k, generated.len() as int);
    assert(rest[0] == generated[k]);
    assert(rest.drop_first() =~= generated.subrange(k + 1, generated.len() as int));
}

/// Merges generated hooks into an existing configuration (`Null` for a
/// missing file), keeping everything already there.
pub fn merge_hooks(existing: Json, generated: Json) -> (r: Result<Json, CliError>)
    ensures
        match merge_hooks_spec(existing@, generated@) {
            Ok(merged) => r matches Ok(j) && j@ == merged,
            Err(e) => r matches Err(CliError::Install(m)) && m@ == e,
        },
{
    let mut root: Vec<(String, Json)> = match existing {
        Json::Null => Vec::new(),
        Json::Object(es) => es,
        _ => return Err(CliError::Install(ROOT_NOT_OBJECT.to_owned())),
    };
    proof {
        lemma_obj_view(root, root@.len() as int);
        if root@.len() == 0 {
            assert(entries_of(root) =~= Seq::<(Seq<char>, JsonV)>::empty());
        }
    }
    let ghost es = entries_of(root);
    let ghost root0 = root;
    let position = find_entry(&root, "hooks");
    let mut hooks: Vec<(String, Json)> = match position {
        Some(i) => {
            proof { lemma_get_first(es, "hooks"@, i as int); }
            let is_object = match &root[i].1 {
                Json::Object(_) => true,
                _ => false,
            };
            if !is_object {
                return Err(CliError::Install(HOOKS_NOT_OBJECT.to_owned()));
            }
            let (_, value) = root.remove(i);
            match value {
                Json::Object(h) => h,
                _ => return Err(CliError::Install(HOOKS_NOT_OBJECT.to_owned())),
            }
        },
        None => {
            proof { lemma_get_absent(es, "hooks"@); }
            let h: Vec<(String, Json)> = Vec::new();
            proof { lemma_obj_view(h, 0); assert(entries_of(h) =~= Seq::<(Seq<char>, JsonV)>::empty()); }
            h
        },
    };
    let ghost hs0 = entries_of(hooks);
    let gen = match generated.get("hooks") {
        Some(Json::Object(g)) => g,
        _ => return Err(CliError::Install(GENERATED_MALFORMED.to_owned())),
    };
    proof { lemma_obj_view(*gen, gen@.len() as int); }
    let ghost gv = entries_of(*gen);
    assert(gv.subrange(0, gv.len() as int) =~= gv);
    assert(match merge_events_spec(hs0, gv) {
        Err(e) => merge_hooks_spec(existing@, generated@) == Err::<JsonV, Seq<char>>(e),
        Ok(_) => true,
    });
    let mut k: usize = 0;
    while k < gen.len()
        invariant
            k <= gen@.len(),
            gv == entries_of(*gen),
            gv.len() == gen@.len(),
            forall|t: int| 0 <= t < gen@.len() ==> #[trigger] gv[t] == (gen@[t].0@, json_view_of(gen@[t].1)),
            merge_events_spec(hs0, gv) == merge_events_spec(entries_of(hooks), gv.subrange(k as int, gv.len() as int)),
            match merge_events_spec(hs0, gv) {
                Err(e) => merge_hooks_spec(existing@, generated@) == Err::<JsonV, Seq<char>>(e),
                Ok(_) => true,
            },
        decreases gen.len() - k,
    {
        proof { lemma_merge_events_step(entries_of(hooks), gv, k as int); }
        assert(gv[k as int] == (gen@[k as int].0@, json_view_of(gen@[k as int].1)));
        match merge_event_hook_groups(&mut hooks, &gen[k].0, &gen[k].1) {
            Ok(()) => {},
            Err(e) => return Err(e),
        }
        k = k + 1;
    }
    assert(gv.subrange(gen@.len() as int, gv.len() as int) =~= Seq::<(Seq<char>, JsonV)>::empty());
    let ghost merged = entries_of(hooks);
    let hooks_value = Json::Object(hooks);
    match position {
        Some(i) => {
            let ghost removed = root;
            root.insert(i, ("hooks".to_owned(), hooks_value));
            proof {
                assert forall|t: int| 0 <= t < es.len() implies
                    (#[trigger] root@[t].0@, json_view_of(root@[t].1)) == es.update(i as int, ("hooks"@, JsonV::Obj(merged)))[t] by {
                    if t != i {
                        assert(root@[t] == root0@[t]);
                    }
                }
                lemma_entries_match(root, es.update(i as int, ("hooks"@, JsonV::Obj(merged))));
            }
        },
        None => {
            root.push(("hooks".to_owned(), hooks_value));
            proof {
                lemma_entries_match(root, es.push(("hooks"@, JsonV::Obj(merged))));
            }
        },
    }
    Ok(Json::Object(root))
}


// ---------------------------------------------------------------------
// Merging is idempotent.

/// Object entries whose names are pairwise distinct.
pub open spec fn unique_names(es: Entries) -> bool {
    forall|i: int, j: int| 0 <= i < j < es.len() ==> #[trigger] es[i].0 != #[trigger] es[j].0
}

proof fn lemma_get_set_same(es: Entries, k: Seq<char>, v: JsonV)
    ensures
        entries_get(entries_set(es, k, v), k) == Some(v),
    decreases es.len(),
{
    if es.len() > 0 && es[0].0 != k {
        lemma_get_set_same(es.drop_first(), k, v);
        assert((seq![es[0]] + entries_set(es.drop_first(), k, v)).drop_first() =~= entries_set(es.drop_first(), k, v));
    }
}

proof fn lemma_get_set_other(es: Entries, k: Seq<char>, v: JsonV, other: Seq<char>)
    requires
        other != k,
    ensures
        entries_get(entries_set(es, k, v), other) == entries_get(es, other),
    decreases es.len(),
{
    if es.len() == 0 {
        let one = seq![(k, v)];
        assert(one.len() == 1 && one[0] == (k, v));
        assert(one.drop_first() =~= Seq::<(Seq<char>, JsonV)>::empty());
        assert(entries_get(one.drop_first(), other) is None);
        assert(entries_get(one, other) is None);
    } else if es[0].0 == k {
        assert(es.update(0, (k, v)).drop_first() =~= es.drop_first());
        assert(es.update(0, (k, v))[0].0 == k);
        assert(entries_get(es.update(0, (k, v)), other) == entries_get(es.drop_first(), other));
    } else {
        lemma_get_set_other(es.drop_first(), k, v, other);
        let joined = seq![es[0]] + entries_set(es.drop_first(), k, v);
        assert(joined[0] == es[0]);
        assert(joined.drop_first() =~= entries_set(es.drop_first(), k, v));
        assert(entries_set(es, k, v) == joined);
        if es[0].0 != other {
            assert(entries_get(joined, other) == entries_get(joined.drop_first(), other));
        }
    }
}

proof fn lemma_set_to_current(es: Entries, k: Seq<char>, v: JsonV)
    requires
        entries_get(es, k) == Some(v),
    ensures
        entries_set(es, k, v) == es,
    decreases es.len(),
{
    if es[0].0 == k {
        assert(es.update(0, (k, v)) =~= es);
    } else {
        lemma_set_to_current(es.drop_first(), k, v);
        assert(seq![es[0]] + es.drop_first() =~= es);
    }
}

proof fn lemma_append_missing_covers(a: Seq<JsonV>, gs: Seq<JsonV>)
    ensures
        forall|g: JsonV| gs.contains(g) ==> append_missing(a, gs).contains(g),
        forall|x: JsonV| a.contains(x) ==> append_missing(a, gs).contains(x),
    decreases gs.len(),
{
    if gs.len() > 0 {
        lemma_append_missing_covers(a, gs.drop_last());
        let before = append_missing(a, gs.drop_last());
        assert forall|g: JsonV| gs.contains(g) implies append_missing(a, gs).contains(g) by {
            let i = choose|i: int| 0 <= i < gs.len() && gs[i] == g;
            if i < gs.len() - 1 {
                assert(gs.drop_last()[i] == g);
                assert(gs.drop_last().contains(g));
                assert(before.contains(g));
                if !before.contains(gs.last()) {
                    let t = choose|t: int| 0 <= t < before.len() && before[t] == g;
                    assert(before.push(gs.last())[t] == g);
                }
            } else if !before.contains(gs.last()) {
                assert(before.push(gs.last())[before.len() as int] == g);
            }
        }
        assert forall|x: JsonV| a.contains(x) implies append_missing(a, gs).contains(x) by {
            if !before.contains(gs.last()) {
                let t = choose|t: int| 0 <= t < before.len() && before[t] == x;
                assert(before.push(gs.last())[t] == x);
            }
        }
    }
}

proof fn lemma_append_missing_present(a: Seq<JsonV>, gs: Seq<JsonV>)
    requires
        forall|g: JsonV| gs.contains(g) ==> a.contains(g),
    ensures
        append_missing(a, gs) == a,
    decreases gs.len(),
{
    if gs.len() > 0 {
        assert forall|g: JsonV| gs.drop_last().contains(g) implies a.contains(g) by {
            let i = choose|i: int| 0 <= i < gs.drop_last().len() && gs.drop_last()[i] == g;
            assert(gs[i] == g);
        }
        lemma_append_missing_present(a, gs.drop_last());
        assert(gs.contains(gs.last()));
    }
}

/// After a successful merge every generated event holds all of its groups.
pub open spec fn events_covered(merged: Entries, generated: Entries) -> bool {
    forall|j: int| 0 <= j < generated.len() ==> {
        &&& #[trigger] generated[j].1 is Arr
        &&& entries_get(merged, generated[j].0) matches Some(JsonV::Arr(a))
        &&& forall|g: JsonV| generated[j].1->Arr_0.contains(g) ==> a.contains(g)
    }
}

proof fn lemma_merge_keeps_other(hooks: Entries, generated: Entries, ev: Seq<char>)
    requires
        merge_events_spec(hooks, generated) is Ok,
        forall|j: int| 0 <= j < generated.len() ==> #[trigger] generated[j].0 != ev,
    ensures
        entries_get(merge_events_spec(hooks, generated)->Ok_0, ev) == entries_get(hooks, ev),
    decreases generated.len(),
{
    if generated.len() > 0 {
        let next = merge_event_spec(hooks, generated[0].0, generated[0].1)->Ok_0;
        assert(generated[0].0 != ev);
        match generated[0].1 {
            JsonV::Arr(gs) => match entries_get(hooks, generated[0].0) {
                None => lemma_get_set_other(hooks, generated[0].0, JsonV::Arr(append_missing(Seq::empty(), gs)), ev),
                Some(JsonV::Arr(cur)) => lemma_get_set_other(hooks, generated[0].0, JsonV::Arr(append_missing(cur, gs)), ev),
                Some(_) => {},
            },
            _ => {},
        }
        assert forall|j: int| 0 <= j < generated.drop_first().len() implies #[trigger] generated.drop_first()[j].0 != ev by {
            assert(generated.drop_first()[j] == generated[j + 1]);
        }
        lemma_merge_keeps_other(next, generated.drop_first(), ev);
    }
}

proof fn lemma_first_pass(hooks: Entries, generated: Entries)
    requires
        merge_events_spec(hooks, generated) is Ok,
        unique_names(generated),
    ensures
        events_covered(merge_events_spec(hooks, generated)->Ok_0, generated),
    decreases generated.len(),
{
    if generated.len() > 0 {
        let ev = generated[0].0;
        let gs = generated[0].1->Arr_0;
        let next = merge_event_spec(hooks, ev, generated[0].1)->Ok_0;
        let rest = generated.drop_first();
        let merged = merge_events_spec(hooks, generated)->Ok_0;
        assert(unique_names(rest)) by {
            assert forall|i: int, j: int| 0 <= i < j < rest.len() implies #[trigger] rest[i].0 != #[trigger] rest[j].0 by {
                assert(rest[i] == generated[i + 1] && rest[j] == generated[j + 1]);
            }
        }
        lemma_first_pass(next, rest);
        let now = match entries_get(hooks, ev) {
            Some(JsonV::Arr(cur)) => append_missing(cur, gs),
            _ => append_missing(Seq::empty(), gs),
        };
        lemma_get_set_same(hooks, ev, JsonV::Arr(now));
        match entries_get(hooks, ev) {
            Some(JsonV::Arr(cur)) => lemma_append_missing_covers(cur, gs),
            _ => lemma_append_missing_covers(Seq::empty(), gs),
        }
        assert forall|j: int| 0 <= j < rest.len() implies #[trigger] rest[j].0 != ev by {
            assert(generated[0].0 != generated[j + 1].0);
        }
        lemma_merge_keeps_other(next, rest, ev);
        assert forall|j: int| 0 <= j < generated.len() implies {
            &&& #[trigger] generated[j].1 is Arr
            &&& entries_get(merged, generated[j].0) matches Some(JsonV::Arr(a))
            &&& forall|g: JsonV| generated[j].1->Arr_0.contains(g) ==> a.contains(g)
        } by {
            if j > 0 {
                assert(rest[j - 1] == generated[j]);
            }
        }
    }
}

proof fn lemma_second_pass(merged: Entries, generated: Entries)
    requires
        events_covered(merged, generated),
    ensures
        merge_events_spec(merged, generated) == Ok::<Entries, Seq<char>>(merged),
    decreases generated.len(),
{
    if generated.len() > 0 {
        assert(generated[0].1 is Arr);
        let gs = generated[0].1->Arr_0;
        let a = entries_get(merged, generated[0].0)->Some_0->Arr_0;
        lemma_append_missing_present(a, gs);
        lemma_set_to_current(merged, generated[0].0, JsonV::Arr(a));
        let rest = generated.drop_first();
        assert(events_covered(merged, rest)) by {
            assert forall|j: int| 0 <= j < rest.len() implies {
                &&& #[trigger] rest[j].1 is Arr
                &&& entries_get(merged, rest[j].0) matches Some(JsonV::Arr(b))
                &&& forall|g: JsonV| rest[j].1->Arr_0.contains(g) ==> b.contains(g)
            } by {
                assert(rest[j] == generated[j + 1]);
            }
        }
        lemma_second_pass(merged, rest);
    }
}

/// Merging the same generated hooks again changes nothing: a configuration
/// that already holds them is returned as it is.
pub proof fn lemma_merge_hooks_idempotent(existing: JsonV, generated: JsonV)
    requires
        merge_hooks_spec(existing, generated) is Ok,
        jget(generated, "hooks"@) matches Some(JsonV::Obj(gen)) && unique_names(gen),
    ensures
        merge_hooks_spec(merge_hooks_spec(existing, generated)->Ok_0, generated) == merge_hooks_spec(existing, generated),
{
    let es: Entries = match existing {
        JsonV::Obj(es) => es,
        _ => Seq::empty(),
    };
    let hs = match entries_get(es, "hooks"@) {
        Some(h) => h->Obj_0,
        None => Seq::empty(),
    };
    let gen = jget(generated, "hooks"@)->Some_0->Obj_0;
    let merged = merge_events_spec(hs, gen)->Ok_0;
    let root = entries_set(es, "hooks"@, JsonV::Obj(merged));
    lemma_first_pass(hs, gen);
    lemma_second_pass(merged, gen);
    lemma_get_set_same(es, "hooks"@, JsonV::Obj(merged));
    lemma_set_to_current(root, "hooks"@, JsonV::Obj(merged));
}


/// A successful merge puts every generated group under its event in the
/// configuration's `hooks`, leaves the groups of events it did not
/// generate as they were, and leaves every other top-level entry alone.
pub proof fn lemma_merge_adds_generated_groups(existing: JsonV, generated: JsonV, gen: Entries, other: Seq<char>, event: Seq<char>)
    requires
        merge_hooks_spec(existing, generated) is Ok,
        jget(generated, "hooks"@) == Some(JsonV::Obj(gen)),
        unique_names(gen),
    ensures
        ({
            let result = merge_hooks_spec(existing, generated)->Ok_0;
            let before = match existing { JsonV::Obj(es) => es, _ => Seq::empty() };
            let old_hooks = match entries_get(before, "hooks"@) { Some(h) => h->Obj_0, None => Seq::empty() };
            &&& jget(result, "hooks"@) is Some && jget(result, "hooks"@)->0 is Obj
            &&& forall|j: int| 0 <= j < gen.len() ==> {
                &&& entries_get(jget(result, "hooks"@)->0->Obj_0, #[trigger] gen[j].0) is Some
                &&& entries_get(jget(result, "hooks"@)->0->Obj_0, gen[j].0)->0 is Arr
                &&& forall|g: JsonV| gen[j].1->Arr_0.contains(g)
                    ==> entries_get(jget(result, "hooks"@)->0->Obj_0, gen[j].0)->0->Arr_0.contains(g)
            }
            &&& (forall|j: int| 0 <= j < gen.len() ==> #[trigger] gen[j].0 != event)
                ==> entries_get(jget(result, "hooks"@)->0->Obj_0, event) == entries_get(old_hooks, event)
            &&& other != "hooks"@ ==> jget(result, other) == entries_get(before, other)
        }),
{
    let es: Entries = match existing {
        JsonV::Obj(es) => es,
        _ => Seq::empty(),
    };
    let hs = match entries_get(es, "hooks"@) {
        Some(h) => h->Obj_0,
        None => Seq::empty(),
    };
    let merged = merge_events_spec(hs, gen)->Ok_0;
    lemma_first_pass(hs, gen);
    lemma_get_set_same(es, "hooks"@, JsonV::Obj(merged));
    if other != "hooks"@ {
        lemma_get_set_other(es, "hooks"@, JsonV::Obj(merged), other);
    }
    if forall|j: int| 0 <= j < gen.len() ==> #[trigger] gen[j].0 != event {
        lemma_merge_keeps_other(hs, gen, event);
    }
}

// ---------------------------------------------------------------------
// Where a hook forwards to.

/// Who owns the lifecycle of the gateway a hook forwards to.
#[derive(Clone, Copy, Debug, PartialEq, Eq, Structural)]
pub enum HookGatewayLifecycle {
    /// A transparent run owns the dynamic gateway and passes its URL
    /// through the environment.
    Transparent,
    /// Persistent hooks use the authenticated gateway that MCP maintains.
    Existing,
}

/// The gateway a hook forwards to.
pub struct HookDestination {
    pub gateway_url: String,
    pub lifecycle: HookGatewayLifecycle,
}

pub open spec fn opt_text(o: Option<String>) -> Option<Seq<char>> {
    match o {
        Some(s) => Some(s@),
        None => None,
    }
}

/// The destination: inside a transparent run, its gateway (the command's
/// URL, else the environment's, else the default); for forward-only hooks,
/// the command's URL or the default, as an existing gateway; otherwise an
/// explicit URL wins, then an environment URL (a transparent gateway), then
/// the default.
pub open spec fn destination_spec(
    command_url: Option<Seq<char>>,
    environment_url: Option<Seq<char>>,
    forward_only: bool,
    transparent_run: bool,
    default_url: Seq<char>,
) -> (Seq<char>, HookGatewayLifecycle) {
    if transparent_run {
        (match command_url {
            Some(u) => u,
            None => match environment_url {
                Some(u) => u,
                None => default_url,
            },
        }, HookGatewayLifecycle::Transparent)
    } else if forward_only {
        (match command_url {
            Some(u) => u,
            None => default_url,
        }, HookGatewayLifecycle::Existing)
    } else {
        match command_url {
            Some(u) => (u, HookGatewayLifecycle::Existing),
            None => match environment_url {
                Some(u) => (u, HookGatewayLifecycle::Transparent),
                None => (default_url, HookGatewayLifecycle::Existing),
            },
        }
    }
}

/// Where a hook forwards, by its inputs: a URL given on the command line
/// always wins; outside a transparent run and forward-only mode, a URL in
/// the environment comes next and is a transparent gateway; the default
/// URL is used only when neither applies (no command URL, and no
/// environment URL or a forward-only hook outside a transparent run). The
/// lifecycle is transparent exactly inside a transparent run or when the
/// environment's URL was taken.
pub proof fn lemma_hook_destination_choice(
    command_url: Option<Seq<char>>,
    environment_url: Option<Seq<char>>,
    forward_only: bool,
    transparent_run: bool,
    default_url: Seq<char>,
)
    ensures
        ({
            let d = destination_spec(command_url, environment_url, forward_only, transparent_run, default_url);
            let env_taken = command_url is None && environment_url is Some && (transparent_run || !forward_only);
            &&& command_url is Some ==> d.0 == command_url->0
            &&& env_taken ==> d.0 == environment_url->0
            &&& (command_url is None && !env_taken) ==> d.0 == default_url
            &&& (d.1 == HookGatewayLifecycle::Transparent) == (transparent_run
                || (!forward_only && command_url is None && environment_url is Some))
        }),
{
}

/// Resolves the gateway a hook forwards to.
pub fn resolve_hook_destination(
    command_url: Option<String>,
    environment_url: Option<String>,
    forward_only: bool,
    transparent_run: bool,
    default_url: &str,
) -> (d: HookDestination)
    ensures
        (d.gateway_url@, d.lifecycle) == destination_spec(
            opt_text(command_url), opt_text(environment_url), forward_only, transparent_run, default_url@),
{
    if transparent_run {
        let gateway_url = match command_url {
            Some(u) => u,
            None => match environment_url {
                Some(u) => u,
                None => default_url.to_owned(),
            },
        };
        return HookDestination { gateway_url, lifecycle: HookGatewayLifecycle::Transparent };
    }
    if forward_only {
        let gateway_url = match command_url {
            Some(u) => u,
            None => default_url.to_owned(),
        };
        return HookDestination { gateway_url, lifecycle: HookGatewayLifecycle::Existing };
    }
    if let Some(gateway_url) = command_url {
        return HookDestination { gateway_url, lifecycle: HookGatewayLifecycle::Existing };
    }
    if let Some(gateway_url) = environment_url {
        return HookDestination { gateway_url, lifecycle: HookGatewayLifecycle::Transparent };
    }
    HookDestination { gateway_url: default_url.to_owned(), lifecycle: HookGatewayLifecycle::Existing }
}


/// Setting a key whose first entry is at `i` replaces that entry.
pub proof fn lemma_entries_set_first(es: Entries, key: Seq<char>, value: JsonV, i: int)
    requires
        0 <= i < es.len(),
        es[i].0 == key,
        forall|j: int| 0 <= j < i ==> #[trigger] es[j].0 != key,
    ensures
        entries_set(es, key, value) == es.update(i, (key, value)),
{
    lemma_get_first(es, key, i);
}

/// Setting an absent key appends it.
pub proof fn lemma_entries_set_absent(es: Entries, key: Seq<char>, value: JsonV)
    requires
        forall|j: int| 0 <= j < es.len() ==> #[trigger] es[j].0 != key,
    ensures
        entries_set(es, key, value) == es.push((key, value)),
{
    lemma_get_absent(es, key);
}

} // verus!
