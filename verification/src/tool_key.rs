//! Cache keys of tool calls, and the request headers that partition model
//! call keys.
//!
//! A tool key is the fingerprint of a key document naming the namespace,
//! the tool, its version, the error-caching policy, the normalized skip
//! list and the arguments without their skipped top-level members. A call
//! whose arguments hold an integer beyond the range a double represents
//! exactly is not cacheable.

use vstd::prelude::*;
use crate::cache_flow::{KeyOutcome, KeyV};
use crate::canonical::{canonical, fingerprint};
use crate::crypto::{hex_text, sha256_of};
use crate::hooks::{entries_set, json_view_of};
use crate::json::{json_clone, lemma_arr_view, lemma_obj_view, arr_view, obj_view, Json, JsonNumber, JsonV};
use crate::marks::CacheReason;
use crate::text::{chars_eq, chars_lt, seq_lt, to_chars};

verus! {

/// `sorted` with `x` inserted in order, unless already present.
pub open spec fn insert_unique(x: Seq<char>, sorted: Seq<Seq<char>>) -> Seq<Seq<char>>
    decreases sorted.len(),
{
    if sorted.len() == 0 {
        seq![x]
    } else if x == sorted[0] {
        sorted
    } else if seq_lt(x, sorted[0]) {
        seq![x] + sorted
    } else {
        seq![sorted[0]] + insert_unique(x, sorted.drop_first())
    }
}

/// A skip list in ascending order without repeats.
pub open spec fn normalized_skip(skip: Seq<Seq<char>>) -> Seq<Seq<char>>
    decreases skip.len(),
{
    if skip.len() == 0 { Seq::empty() } else { insert_unique(skip.last(), normalized_skip(skip.drop_last())) }
}

/// The arguments without their skipped top-level members.
pub open spec fn args_without(args: JsonV, skip: Seq<Seq<char>>) -> JsonV {
    match args {
        JsonV::Obj(es) => JsonV::Obj(es.filter(|e: (Seq<char>, JsonV)| !skip.contains(e.0))),
        _ => args,
    }
}

/// The document a tool key is the fingerprint of.
pub open spec fn tool_key_document(
    namespace: Seq<char>,
    tool: Seq<char>,
    version: Option<Seq<char>>,
    args: JsonV,
    skip: Seq<Seq<char>>,
    cache_errors: bool,
) -> JsonV {
    let normalized = normalized_skip(skip);
    JsonV::Obj(seq![
        ("arg_skip"@, JsonV::Arr(normalized.map_values(|s: Seq<char>| JsonV::Str(s)))),
        ("args"@, args_without(args, normalized)),
        ("cache_errors"@, JsonV::Bool(cache_errors)),
        ("ns"@, JsonV::Str(namespace)),
        ("surface"@, JsonV::Str("tool"@)),
        ("tool"@, JsonV::Str(tool)),
        ("tool_version"@, match version {
            Some(v) => JsonV::Str(v),
            None => JsonV::Null,
        }),
        ("v"@, JsonV::Num(JsonNumber::PosInt(1))),
    ])
}

/// The key of a tool call: the hex digest of its key document's canonical
/// text, or a bypass when the document has none.
pub open spec fn tool_key_spec(
    namespace: Seq<char>,
    tool: Seq<char>,
    version: Option<Seq<char>>,
    args: JsonV,
    skip: Seq<Seq<char>>,
    cache_errors: bool,
) -> KeyV {
    match canonical(tool_key_document(namespace, tool, version, args, skip, cache_errors)) {
        Some(t) => KeyV::Key(hex_text(sha256_of(vstd::utf8::encode_utf8(t)))),
        None => KeyV::Bypass(CacheReason::UnrepresentableNumber),
    }
}

proof fn lemma_insert_unique_at(x: Seq<char>, s: Seq<Seq<char>>, p: int)
    requires
        0 <= p <= s.len(),
        forall|j: int| 0 <= j < p ==> seq_lt(#[trigger] s[j], x) && s[j] != x,
        p < s.len() ==> !(seq_lt(s[p], x) && s[p] != x),
    ensures
        insert_unique(x, s) == if p < s.len() && s[p] == x { s } else { s.insert(p, x) },
    decreases p,
{
    if p > 0 {
        lemma_insert_unique_at(x, s.drop_first(), p - 1);
        assert(x != s[0]);
        crate::text::lemma_seq_lt_trichotomy(s[0], x);
        if p - 1 < s.drop_first().len() && s.drop_first()[p - 1] == x {
            assert(seq![s[0]] + s.drop_first() =~= s);
        } else {
            assert(seq![s[0]] + s.drop_first().insert(p - 1, x) =~= s.insert(p, x));
        }
    } else if s.len() > 0 && s[0] != x {
        crate::text::lemma_seq_lt_trichotomy(x, s[0]);
        assert(seq![x] + s =~= s.insert(0, x));
    } else if s.len() == 0 {
        assert(seq![x] =~= s.insert(0, x));
    }
}

proof fn lemma_cons_members(a: Seq<char>, s: Seq<Seq<char>>, y: Seq<char>)
    ensures
        (seq![a] + s).contains(y) <==> (y == a || s.contains(y)),
{
    let whole = seq![a] + s;
    if whole.contains(y) {
        let i = choose|i: int| 0 <= i < whole.len() && whole[i] == y;
        if i > 0 {
            assert(s[i - 1] == y);
        }
    }
    if y == a {
        assert(whole[0] == y);
    }
    if s.contains(y) {
        let i = choose|i: int| 0 <= i < s.len() && s[i] == y;
        assert(whole[i + 1] == y);
    }
}

proof fn lemma_insert_unique_members(x: Seq<char>, s: Seq<Seq<char>>, y: Seq<char>)
    ensures
        insert_unique(x, s).contains(y) <==> (y == x || s.contains(y)),
    decreases s.len(),
{
    if s.len() == 0 {
        lemma_cons_members(x, s, y);
        assert(seq![x] + s =~= seq![x]);
    } else if x == s[0] {
        assert(s.contains(s[0])) by { assert(s[0] == s[0]); }
    } else if seq_lt(x, s[0]) {
        lemma_cons_members(x, s, y);
    } else {
        lemma_insert_unique_members(x, s.drop_first(), y);
        lemma_cons_members(s[0], insert_unique(x, s.drop_first()), y);
        lemma_cons_members(s[0], s.drop_first(), y);
        assert(seq![s[0]] + s.drop_first() =~= s);
    }
}

/// A name is in the normalized skip list exactly when it is in the skip
/// list.
pub proof fn lemma_normalized_skip_members(skip: Seq<Seq<char>>, y: Seq<char>)
    ensures
        normalized_skip(skip).contains(y) <==> skip.contains(y),
    decreases skip.len(),
{
    if skip.len() > 0 {
        lemma_normalized_skip_members(skip.drop_last(), y);
        lemma_insert_unique_members(skip.last(), normalized_skip(skip.drop_last()), y);
        if skip.contains(y) && y != skip.last() {
            let i = choose|i: int| 0 <= i < skip.len() && skip[i] == y;
            assert(skip.drop_last()[i] == y);
        }
        if skip.drop_last().contains(y) {
            let i = choose|i: int| 0 <= i < skip.drop_last().len() && skip.drop_last()[i] == y;
            assert(skip[i] == y);
        }
        assert(skip[skip.len() - 1] == skip.last());
    }
}

/// A top-level argument named in the skip list does not reach the key: a
/// call with it added to its arguments has the same key as the call
/// without it, whatever its value.
pub proof fn lemma_skipped_arguments_do_not_change_the_key(
    namespace: Seq<char>,
    tool: Seq<char>,
    version: Option<Seq<char>>,
    args: Seq<(Seq<char>, JsonV)>,
    skip: Seq<Seq<char>>,
    cache_errors: bool,
    name: Seq<char>,
    value: JsonV,
)
    requires
        skip.contains(name),
    ensures
        tool_key_spec(namespace, tool, version, JsonV::Obj(args.push((name, value))), skip, cache_errors)
            == tool_key_spec(namespace, tool, version, JsonV::Obj(args), skip, cache_errors),
{
    lemma_normalized_skip_members(skip, name);
    let n = normalized_skip(skip);
    let keep = |e: (Seq<char>, JsonV)| !n.contains(e.0);
    assert(args.push((name, value)).filter(keep) == args.filter(keep)) by {
        reveal_with_fuel(Seq::filter, 1);
        assert(args.push((name, value)).drop_last() =~= args);
    }
    assert(tool_key_document(namespace, tool, version, JsonV::Obj(args.push((name, value))), skip, cache_errors)
        == tool_key_document(namespace, tool, version, JsonV::Obj(args), skip, cache_errors));
}

fn less_at(sorted: &Vec<Vec<char>>, p: usize, x: &Vec<char>) -> (less: bool)
    requires
        p < sorted@.len(),
    ensures
        less == (seq_lt(sorted@[p as int]@, x@) && sorted@[p as int]@ != x@),
{
    chars_lt(sorted[p].as_slice(), x.as_slice()) && !chars_eq(sorted[p].as_slice(), x.as_slice())
}

pub open spec fn char_texts(v: Seq<Vec<char>>) -> Seq<Seq<char>> {
    v.map_values(|c: Vec<char>| c@)
}

/// The skip list in ascending order without repeats.
pub fn normalize_skip(skip: &Vec<String>) -> (out: Vec<Vec<char>>)
    ensures
        char_texts(out@) == normalized_skip(skip@.map_values(|s: String| s@)),
{
    let ghost ks = skip@.map_values(|s: String| s@);
    let mut out: Vec<Vec<char>> = Vec::new();
    let mut i: usize = 0;
    assert(ks.take(0) =~= Seq::<Seq<char>>::empty());
    while i < skip.len()
        invariant
            i <= skip@.len(),
            ks == skip@.map_values(|s: String| s@),
            char_texts(out@) == normalized_skip(ks.take(i as int)),
        decreases skip.len() - i,
    {
        let x = to_chars(skip[i].as_str());
        let mut p: usize = 0;
        while p < out.len() && less_at(&out, p, &x)
            invariant
                p <= out@.len(),
                forall|j: int| 0 <= j < p ==> seq_lt(#[trigger] char_texts(out@)[j], x@) && char_texts(out@)[j] != x@,
            decreases out.len() - p,
        {
            p = p + 1;
        }
        let ghost before = char_texts(out@);
        proof { lemma_insert_unique_at(x@, before, p as int); }
        assert(ks.take(i + 1).drop_last() =~= ks.take(i as int));
        assert(ks.take(i + 1).last() == x@);
        let present = p < out.len() && chars_eq(out[p].as_slice(), x.as_slice());
        if !present {
            out.insert(p, x);
            assert(char_texts(out@) =~= before.insert(p as int, skip@[i as int]@));
        }
        i = i + 1;
    }
    assert(ks.take(skip@.len() as int) =~= ks);
    out
}

fn skipped(skip: &Vec<Vec<char>>, name: &str) -> (found: bool)
    ensures
        found == char_texts(skip@).contains(name@),
{
    let n = to_chars(name);
    let mut i: usize = 0;
    while i < skip.len()
        invariant
            i <= skip@.len(),
            n@ == name@,
            forall|j: int| 0 <= j < i ==> #[trigger] char_texts(skip@)[j] != name@,
        decreases skip.len() - i,
    {
        if chars_eq(skip[i].as_slice(), n.as_slice()) {
            assert(char_texts(skip@)[i as int] == name@);
            return true;
        }
        i = i + 1;
    }
    false
}

/// The arguments without their skipped top-level members.
fn strip_args(args: &Json, skip: &Vec<Vec<char>>) -> (out: Json)
    ensures
        out@ == args_without(args@, char_texts(skip@)),
{
    match args {
        Json::Object(es) => {
            proof { lemma_obj_view(*es, es@.len() as int); }
            let ghost ev = obj_view(*es, es@.len() as int);
            let ghost sk = char_texts(skip@);
            let mut kept: Vec<(String, Json)> = Vec::new();
            let mut i: usize = 0;
            proof { reveal(Seq::filter); }
            assert(ev.take(0).filter(|e: (Seq<char>, JsonV)| !sk.contains(e.0)) =~= Seq::<(Seq<char>, JsonV)>::empty());
            while i < es.len()
                invariant
                    i <= es@.len(),
                    ev == obj_view(*es, es@.len() as int),
                    ev.len() == es@.len(),
                    sk == char_texts(skip@),
                    forall|t: int| 0 <= t < es@.len() ==> #[trigger] ev[t] == (es@[t].0@, json_view_of(es@[t].1)),
                    obj_view(kept, kept@.len() as int) == ev.take(i as int).filter(|e: (Seq<char>, JsonV)| !sk.contains(e.0)),
                decreases es.len() - i,
            {
                let ghost before = obj_view(kept, kept@.len() as int);
                let ghost prev = kept;
                proof {
                    assert(ev.take(i + 1).drop_last() =~= ev.take(i as int));
                    assert(ev.take(i + 1).last() == ev[i as int]);
                    reveal(Seq::filter);
                }
                if !skipped(skip, es[i].0.as_str()) {
                    kept.push((es[i].0.clone(), json_clone(&es[i].1)));
                    proof {
                        lemma_obj_view(kept, kept@.len() as int);
                        lemma_obj_view(prev, prev@.len() as int);
                        assert(obj_view(kept, kept@.len() as int) =~= before.push(ev[i as int])) by {
                            assert forall|t: int| 0 <= t < before.len() implies #[trigger] obj_view(kept, kept@.len() as int)[t] == before[t] by {
                                assert(kept@[t] == prev@[t]);
                            }
                        }
                    }
                }
                i = i + 1;
            }
            assert(ev.take(es@.len() as int) =~= ev);
            Json::Object(kept)
        },
        _ => json_clone(args),
    }
}

/// Builds the cache key of a tool call, or the reason it is not cacheable.
pub fn build_tool_cache_key(
    namespace: &str,
    tool: &str,
    version: Option<&str>,
    args: &Json,
    arg_skip: &Vec<String>,
    cache_errors: bool,
) -> (key: KeyOutcome)
    ensures
        key@ == tool_key_spec(namespace@, tool@, match version {
            Some(v) => Some(v@),
            None => None,
        }, args@, arg_skip@.map_values(|s: String| s@), cache_errors),
{
    let skip = normalize_skip(arg_skip);
    let mut skip_items: Vec<Json> = Vec::new();
    let mut i: usize = 0;
    while i < skip.len()
        invariant
            i <= skip@.len(),
            skip_items@.len() == i,
            forall|t: int| 0 <= t < i ==> #[trigger] skip_items@[t]@ == JsonV::Str(skip@[t]@),
        decreases skip.len() - i,
    {
        let text = crate::text::from_chars(&skip[i]);
        skip_items.push(Json::String(text));
        i = i + 1;
    }
    proof {
        lemma_arr_view(skip_items, skip_items@.len() as int);
        let target = char_texts(skip@).map_values(|s: Seq<char>| JsonV::Str(s));
        assert forall|t: int| 0 <= t < skip@.len() implies #[trigger] arr_view(skip_items, skip_items@.len() as int)[t] == target[t] by {
            assert(char_texts(skip@)[t] == skip@[t]@);
            assert(skip_items@[t]@ == JsonV::Str(skip@[t]@));
        }
        assert(arr_view(skip_items, skip_items@.len() as int) =~= target);
    }
    let ghost vopt: Option<Seq<char>> = match version {
        Some(v) => Some(v@),
        None => None,
    };
    let ghost target = tool_key_document(namespace@, tool@, vopt, args@, arg_skip@.map_values(|s: String| s@), cache_errors)->Obj_0;
    let skip_json = Json::Array(skip_items);
    assert(skip_json@ == target[0].1);
    let stripped = strip_args(args, &skip);
    assert(stripped@ == target[1].1);
    let mut doc: Vec<(String, Json)> = Vec::new();
    doc.push(("arg_skip".to_owned(), skip_json));
    doc.push(("args".to_owned(), stripped));
    doc.push(("cache_errors".to_owned(), Json::Bool(cache_errors)));
    doc.push(("ns".to_owned(), Json::String(namespace.to_owned())));
    doc.push(("surface".to_owned(), Json::String("tool".to_owned())));
    doc.push(("tool".to_owned(), Json::String(tool.to_owned())));
    doc.push(("tool_version".to_owned(), match version {
        Some(v) => Json::String(v.to_owned()),
        None => Json::Null,
    }));
    doc.push(("v".to_owned(), Json::Number(JsonNumber::PosInt(1))));
    proof {
        lemma_obj_view(doc, 8);
        assert forall|t: int| 0 <= t < 8 implies #[trigger] obj_view(doc, 8)[t] == target[t] by {
            assert(obj_view(doc, 8)[t] == (doc@[t].0@, json_view_of(doc@[t].1)));
        }
        assert(obj_view(doc, 8) =~= target);
    }
    let document = Json::Object(doc);
    assert(document@ =~= tool_key_document(namespace@, tool@, match version {
        Some(v) => Some(v@),
        None => None,
    }, args@, arg_skip@.map_values(|s: String| s@), cache_errors));
    match fingerprint(&document) {
        Some(f) => KeyOutcome::Key(f),
        None => KeyOutcome::Bypass(CacheReason::UnrepresentableNumber),
    }
}

// ---------------------------------------------------------------------
// Header partitioning.

/// ASCII lowercase of one character.
pub open spec fn lower_char(c: char) -> char {
    if 65 <= (c as u32) && (c as u32) <= 90 { (((c as u32) + 32) as u8) as char } else { c }
}

pub open spec fn lower_text(s: Seq<char>) -> Seq<char> {
    s.map_values(|c: char| lower_char(c))
}

/// The headers that partition a key: those named (ignoring ASCII case) in
/// the allowlist, keyed by their lowercased name; a later header with the
/// same lowercased name replaces an earlier one.
pub open spec fn allowlisted_spec(headers: Seq<(Seq<char>, JsonV)>, allowlist: Seq<Seq<char>>, n: int) -> Seq<(Seq<char>, JsonV)>
    decreases n,
{
    if n <= 0 || n > headers.len() {
        Seq::empty()
    } else {
        let before = allowlisted_spec(headers, allowlist, n - 1);
        let (name, value) = headers[n - 1];
        if allowlist.map_values(|a: Seq<char>| lower_text(a)).contains(lower_text(name)) {
            entries_set(before, lower_text(name), value)
        } else {
            before
        }
    }
}

fn lower_chars(s: &str) -> (out: Vec<char>)
    ensures
        out@ == lower_text(s@),
{
    let cs = to_chars(s);
    let mut out: Vec<char> = Vec::new();
    let mut i: usize = 0;
    while i < cs.len()
        invariant
            i <= cs@.len(),
            cs@ == s@,
            out@ == lower_text(cs@.take(i as int)),
        decreases cs.len() - i,
    {
        let c = cs[i];
        let u = c as u32;
        let l = if 65 <= u && u <= 90 { ((u + 32) as u8) as char } else { c };
        out.push(l);
        assert(out@ =~= lower_text(cs@.take(i + 1)));
        i = i + 1;
    }
    assert(cs@.take(cs@.len() as int) =~= cs@);
    out
}

/// The allowlisted headers of a request.
pub fn allowlisted_headers(headers: &Vec<(String, Json)>, allowlist: &Vec<String>) -> (kept: Vec<(String, Json)>)
    ensures
        obj_view(kept, kept@.len() as int) == allowlisted_spec(
            obj_view(*headers, headers@.len() as int), allowlist@.map_values(|s: String| s@), headers@.len() as int),
{
    let ghost al = allowlist@.map_values(|s: String| s@);
    let mut lowered: Vec<Vec<char>> = Vec::new();
    let mut a: usize = 0;
    while a < allowlist.len()
        invariant
            a <= allowlist@.len(),
            char_texts(lowered@) == al.take(a as int).map_values(|x: Seq<char>| lower_text(x)),
            al == allowlist@.map_values(|s: String| s@),
        decreases allowlist.len() - a,
    {
        let ghost before = lowered@;
        let l = lower_chars(allowlist[a].as_str());
        assert(l@ == lower_text(al[a as int]));
        lowered.push(l);
        assert(lowered@ == before.push(l));
        assert(al.take(a + 1) =~= al.take(a as int).push(al[a as int]));
        assert(char_texts(lowered@) =~= al.take(a + 1).map_values(|x: Seq<char>| lower_text(x))) by {
            assert(char_texts(lowered@) =~= char_texts(before).push(l@));
            assert(al.take(a as int).push(al[a as int]).map_values(|x: Seq<char>| lower_text(x))
                =~= al.take(a as int).map_values(|x: Seq<char>| lower_text(x)).push(lower_text(al[a as int])));
        }
        a = a + 1;
    }
    assert(al.take(allowlist@.len() as int) =~= al);
    proof { lemma_obj_view(*headers, headers@.len() as int); }
    let ghost hv = obj_view(*headers, headers@.len() as int);
    let mut kept: Vec<(String, Json)> = Vec::new();
    proof { lemma_obj_view(kept, 0); }
    let mut i: usize = 0;
    while i < headers.len()
        invariant
            i <= headers@.len(),
            hv == obj_view(*headers, headers@.len() as int),
            hv.len() == headers@.len(),
            forall|t: int| 0 <= t < headers@.len() ==> #[trigger] hv[t] == (headers@[t].0@, json_view_of(headers@[t].1)),
            char_texts(lowered@) == al.map_values(|x: Seq<char>| lower_text(x)),
            obj_view(kept, kept@.len() as int) == allowlisted_spec(hv, al, i as int),
        decreases headers.len() - i,
    {
        let name = lower_chars(headers[i].0.as_str());
        let mut allowed = false;
        let mut k: usize = 0;
        while k < lowered.len() && !allowed
            invariant
                k <= lowered@.len(),
                allowed ==> char_texts(lowered@).contains(name@),
                !allowed ==> forall|j: int| 0 <= j < k ==> #[trigger] char_texts(lowered@)[j] != name@,
            decreases lowered.len() - k + if allowed { 0int } else { 1int },
        {
            if chars_eq(lowered[k].as_slice(), name.as_slice()) {
                assert(char_texts(lowered@)[k as int] == name@);
                allowed = true;
            } else {
                k = k + 1;
            }
        }
        if allowed {
            let text = crate::text::from_chars(&name);
            set_entry(&mut kept, text, json_clone(&headers[i].1));
        }
        i = i + 1;
    }
    kept
}

/// Sets `key` in `entries`: replaces the first entry of that name, or
/// appends one.
pub fn set_entry(entries: &mut Vec<(String, Json)>, key: String, value: Json)
    ensures
        obj_view(*final(entries), final(entries)@.len() as int)
            == entries_set(obj_view(*old(entries), old(entries)@.len() as int), key@, value@),
{
    proof { lemma_obj_view(*entries, entries@.len() as int); }
    let ghost ev = obj_view(*entries, entries@.len() as int);
    let ghost prev = *entries;
    let ghost kv = key@;
    let ghost vv = value@;
    let k = to_chars(key.as_str());
    let mut i: usize = 0;
    while i < entries.len()
        invariant
            i <= entries@.len(),
            *entries == prev,
            prev == *old(entries),
            k@ == kv,
            kv == key@,
            vv == value@,
            ev == obj_view(prev, prev@.len() as int),
            ev.len() == prev@.len(),
            forall|t: int| 0 <= t < prev@.len() ==> #[trigger] ev[t] == (prev@[t].0@, json_view_of(prev@[t].1)),
            forall|j: int| 0 <= j < i ==> #[trigger] ev[j].0 != kv,
        decreases entries.len() - i,
    {
        let other = to_chars(entries[i].0.as_str());
        if chars_eq(other.as_slice(), k.as_slice()) {
            proof { crate::hooks::lemma_entries_set_first(ev, kv, vv, i as int); }
            let ghost pair = (key, value);
            entries.remove(i);
            entries.insert(i, (key, value));
            assert(entries@ =~= prev@.update(i as int, pair));
            proof {
                lemma_obj_view(*entries, entries@.len() as int);
                assert forall|t: int| 0 <= t < ev.len() implies #[trigger] obj_view(*entries, entries@.len() as int)[t]
                    == ev.update(i as int, (kv, vv))[t] by {
                    if t != i {
                        assert(entries@[t] == prev@[t]);
                        assert(ev[t] == (prev@[t].0@, json_view_of(prev@[t].1)));
                    } else {
                        assert(entries@[t] == pair);
                        assert(pair.0@ == kv);
                        assert(json_view_of(pair.1) == vv);
                    }
                }
                assert(obj_view(*entries, entries@.len() as int) =~= ev.update(i as int, (kv, vv)));
            }
            return;
        }
        i = i + 1;
    }
    proof { crate::hooks::lemma_entries_set_absent(ev, kv, vv); }
    entries.push((key, value));
    proof {
        lemma_obj_view(*entries, entries@.len() as int);
        assert(obj_view(*entries, entries@.len() as int) =~= ev.push((kv, vv)));
    }
}

} // verus!
