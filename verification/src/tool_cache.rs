//! The opt-in tool-result cache: the stored entry format and the
//! get-or-miss decisions of one tool call.
//!
//! A hit suppresses the real call, so only tools whose resolved policy is
//! cacheable take part; key and store failures fail open to the real call.

use vstd::prelude::*;
use crate::json::{jget, jget_str, json_clone, lemma_obj_view, obj_view, Json, JsonV};
use crate::cache_flow::{mark_of, plan_call, plan_spec, CacheStep, KeyOutcome, StepV};
use crate::cache_shapes::{error_shaped_tool_result, is_error_shaped_tool_result, set_member};
use crate::marks::{CacheMark, CacheMarkStatus, CacheReason, CacheSurface, MarkV};
use crate::text::str_is;

verus! {

/// The schema tag of a stored tool result.
pub const TOOL_RESULT_CACHE_ENTRY_SCHEMA: &'static str = "nemo.relay.ResponseCacheToolResult@1";

/// A tool's output and its optional annotation.
pub struct ToolResult {
    pub result: Json,
    pub annotation: Option<Json>,
}

impl View for ToolResult {
    type V = (JsonV, Option<JsonV>);

    open spec fn view(&self) -> (JsonV, Option<JsonV>) {
        (self.result@, match self.annotation {
            Some(a) => Some(a@),
            None => None,
        })
    }
}

/// The stored form of a tool result: an object tagged with the schema,
/// holding the annotation (null when there is none) and the result, keys in
/// ascending order.
pub open spec fn encode_spec(result: (JsonV, Option<JsonV>)) -> JsonV {
    JsonV::Obj(seq![
        ("$schema"@, JsonV::Str(TOOL_RESULT_CACHE_ENTRY_SCHEMA@)),
        ("annotation"@, match result.1 {
            Some(a) => a,
            None => JsonV::Null,
        }),
        ("result"@, result.0),
    ])
}

/// Reading a stored value back: a schema-tagged object with a `result`
/// yields that result and its non-null annotation; any other value is taken
/// as a bare result.
pub open spec fn decode_spec(value: JsonV) -> (JsonV, Option<JsonV>) {
    if value is Obj && jget_str(value, "$schema"@) == Some(TOOL_RESULT_CACHE_ENTRY_SCHEMA@)
        && jget(value, "result"@) is Some {
        (jget(value, "result"@)->0, match jget(value, "annotation"@) {
            Some(a) => if a is Null { None } else { Some(a) },
            None => None,
        })
    } else {
        (value, None)
    }
}

/// The stored form of a tool result.
pub fn encode_tool_result(result: &ToolResult) -> (value: Json)
    ensures
        value@ == encode_spec(result@),
{
    let mut entries: Vec<(String, Json)> = Vec::new();
    entries.push(("$schema".to_owned(), Json::String(TOOL_RESULT_CACHE_ENTRY_SCHEMA.to_owned())));
    let annotation = match &result.annotation {
        Some(a) => json_clone(a),
        None => Json::Null,
    };
    entries.push(("annotation".to_owned(), annotation));
    entries.push(("result".to_owned(), json_clone(&result.result)));
    proof {
        lemma_obj_view(entries, 3);
        assert(obj_view(entries, 3) =~= encode_spec(result@)->Obj_0);
    }
    Json::Object(entries)
}

/// Reads a stored value back as a tool result.
pub fn decode_tool_result(value: &Json) -> (decoded: ToolResult)
    ensures
        decoded@ == decode_spec(value@),
{
    let bare = ToolResult { result: json_clone(value), annotation: None };
    if !value.is_object() {
        return bare;
    }
    let tagged = match value.get_str("$schema") {
        Some(tag) => str_is(tag.as_str(), TOOL_RESULT_CACHE_ENTRY_SCHEMA),
        None => false,
    };
    if !tagged {
        return bare;
    }
    match value.get("result") {
        None => bare,
        Some(result) => {
            let annotation = match value.get("annotation") {
                Some(a) => if a.is_null() { None } else { Some(json_clone(a)) },
                None => None,
            };
            ToolResult { result: json_clone(result), annotation }
        },
    }
}

/// Storing a tool result and reading it back gives the same result, unless
/// its annotation was an explicit null, which reads back as no annotation.
pub proof fn lemma_tool_result_round_trip(result: (JsonV, Option<JsonV>))
    requires
        result.1 != Some(JsonV::Null),
    ensures
        decode_spec(encode_spec(result)) == result,
{
    reveal_strlit("$schema");
    reveal_strlit("annotation");
    reveal_strlit("result");
    let es = encode_spec(result)->Obj_0;
    assert("$schema"@ != "annotation"@ && "$schema"@ != "result"@ && "annotation"@ != "result"@) by {
        assert("$schema"@[0] != "annotation"@[0]);
        assert("$schema"@[0] != "result"@[0]);
        assert("annotation"@[0] != "result"@[0]);
    }
    assert(es.drop_first() =~= seq![es[1], es[2]]);
    assert(es.drop_first().drop_first() =~= seq![es[2]]);
    assert(es.drop_first().drop_first().drop_first() =~= Seq::<(Seq<char>, JsonV)>::empty());
    reveal_with_fuel(crate::json::entries_get, 4);
    assert(jget(encode_spec(result), "result"@) == Some(result.0));
    assert(jget(encode_spec(result), "$schema"@) == Some(JsonV::Str(TOOL_RESULT_CACHE_ENTRY_SCHEMA@)));
}

/// Whether a live tool result may be stored: error-shaped results only when
/// error caching is on.
pub open spec fn storable_tool_result(result: JsonV, cache_errors: bool) -> bool {
    cache_errors || !error_shaped_tool_result(result)
}

/// With error caching on every live tool result is stored; with it off,
/// exactly those that do not signal an error in-band (an object with a
/// non-null `error`, or `isError`/`is_error` set to `true`).
pub proof fn lemma_storable_tool_results(result: JsonV)
    ensures
        storable_tool_result(result, true),
        storable_tool_result(result, false) == !(result is Obj && (set_member(result, "error"@)
            || jget(result, "isError"@) == Some(JsonV::Bool(true))
            || jget(result, "is_error"@) == Some(JsonV::Bool(true)))),
{
}

pub fn should_store_tool_result(result: &Json, cache_errors: bool) -> (store: bool)
    ensures
        store == storable_tool_result(result@, cache_errors),
{
    cache_errors || !is_error_shaped_tool_result(result)
}

/// A TTL in seconds as whole milliseconds, wrapping as a 64-bit count.
pub open spec fn ttl_ms_of(ttl_seconds: u64) -> u64 {
    ((ttl_seconds as nat * 1000) % 0x1_0000_0000_0000_0000) as u64
}

pub fn ttl_millis(ttl_seconds: u64) -> (ms: u64)
    ensures
        ms == ttl_ms_of(ttl_seconds),
{
    ttl_seconds.wrapping_mul(1000)
}

/// The first step of a tool call: a tool whose policy is not cacheable runs
/// live unstored; otherwise as for any cached call on the tool surface.
pub fn plan_tool_call(cacheable: bool, key: &KeyOutcome, sampled: bool) -> (step: CacheStep)
    ensures
        !cacheable ==> step@ == (StepV::RunLive {
            mark: mark_of(CacheMarkStatus::Bypass, CacheSurface::Tool, Some(CacheReason::Uncacheable), None, None, None, None),
            store_key: None,
        }),
        cacheable ==> step@ == plan_spec(CacheSurface::Tool, key@, sampled),
{
    if !cacheable {
        let mut mark = CacheMark::new(CacheMarkStatus::Bypass, CacheSurface::Tool);
        mark.reason = Some(CacheReason::Uncacheable);
        return CacheStep::RunLive { mark, store_key: None };
    }
    plan_call(CacheSurface::Tool, key, sampled)
}

/// What a tool-cache lookup returned.
pub enum ToolLookup {
    Found { response: Json, created_unix_ms: u64 },
    Absent,
    Failed,
}

/// The step after a tool-cache lookup.
pub enum ToolStep {
    /// Run the tool live after recording `mark`; store the result under
    /// `store_key` when one is given.
    RunLive { mark: CacheMark, store_key: Option<String> },
    /// Serve `result` after recording `mark`.
    Replay { mark: CacheMark, result: ToolResult },
}

pub enum ToolStepV {
    RunLive { mark: MarkV, store_key: Option<Seq<char>> },
    Replay { mark: MarkV, result: (JsonV, Option<JsonV>) },
}

impl View for ToolStep {
    type V = ToolStepV;

    open spec fn view(&self) -> ToolStepV {
        match self {
            ToolStep::RunLive { mark, store_key } => ToolStepV::RunLive {
                mark: mark@,
                store_key: match store_key {
                    Some(k) => Some(k@),
                    None => None,
                },
            },
            ToolStep::Replay { mark, result } => ToolStepV::Replay { mark: mark@, result: result@ },
        }
    }
}

/// The step after looking up `key`: a stored result is replayed, except an
/// error-shaped one while error caching is off, which runs live and is
/// replaced; an absent entry runs live and stores; an unreadable store runs
/// live unstored.
pub open spec fn after_tool_lookup_spec(
    key: Seq<char>,
    found: Option<(JsonV, u64)>,
    failed: bool,
    cache_errors: bool,
    now_ms: u64,
    ttl_seconds: u64,
) -> ToolStepV {
    match found {
        Some((response, created)) => if !cache_errors && error_shaped_tool_result(decode_spec(response).0) {
            ToolStepV::RunLive {
                mark: mark_of(CacheMarkStatus::Bypass, CacheSurface::Tool, Some(CacheReason::CachedError), Some(key), None, None, None),
                store_key: Some(key),
            }
        } else {
            ToolStepV::Replay {
                mark: mark_of(
                    CacheMarkStatus::Hit,
                    CacheSurface::Tool,
                    None,
                    Some(key),
                    Some(if now_ms >= created { (now_ms - created) as u64 } else { 0 }),
                    Some(ttl_ms_of(ttl_seconds)),
                    Some(1),
                ),
                result: decode_spec(response),
            }
        },
        None => if failed {
            ToolStepV::RunLive {
                mark: mark_of(CacheMarkStatus::Miss, CacheSurface::Tool, Some(CacheReason::StoreError), Some(key), None, None, None),
                store_key: None,
            }
        } else {
            ToolStepV::RunLive {
                mark: mark_of(CacheMarkStatus::Miss, CacheSurface::Tool, None, Some(key), None, Some(ttl_ms_of(ttl_seconds)), None),
                store_key: Some(key),
            }
        },
    }
}

/// With error caching on, every stored entry a lookup finds is served: the
/// step is a hit replaying the result as it was stored (any result, error
/// or not, whose annotation is not an explicit null), aged by the time
/// since it was stored, with the TTL in milliseconds and one saved call.
/// A found entry runs live only with error caching off, and only for an
/// error-shaped stored result.
pub proof fn lemma_found_entries_replay_when_errors_are_cached(
    key: Seq<char>,
    stored: (JsonV, Option<JsonV>),
    response: JsonV,
    created: u64,
    failed: bool,
    cache_errors: bool,
    now_ms: u64,
    ttl_seconds: u64,
)
    requires
        stored.1 != Some(JsonV::Null),
    ensures
        ({
            let step = after_tool_lookup_spec(key, Some((encode_spec(stored), created)), failed, true, now_ms, ttl_seconds);
            &&& step is Replay
            &&& step->Replay_result == stored
            &&& step->Replay_mark.status == CacheMarkStatus::Hit
            &&& step->Replay_mark.key_hash == Some(key)
            &&& step->Replay_mark.age_ms == Some(if now_ms >= created { (now_ms - created) as u64 } else { 0u64 })
            &&& ttl_seconds * 1000 <= u64::MAX ==> step->Replay_mark.ttl_ms == Some((ttl_seconds * 1000) as u64)
            &&& step->Replay_mark.saved_invocations == Some(1u64)
        }),
        after_tool_lookup_spec(key, Some((response, created)), failed, true, now_ms, ttl_seconds) is Replay,
        after_tool_lookup_spec(key, Some((response, created)), failed, cache_errors, now_ms, ttl_seconds) is RunLive
            ==> !cache_errors && error_shaped_tool_result(decode_spec(response).0),
{
    lemma_tool_result_round_trip(stored);
}

pub open spec fn found_of(lookup: ToolLookup) -> Option<(JsonV, u64)> {
    match lookup {
        ToolLookup::Found { response, created_unix_ms } => Some((response@, created_unix_ms)),
        _ => None,
    }
}

fn copy_key(s: &String) -> (out: String)
    ensures
        out@ == s@,
{
    s.clone()
}

/// The step after looking up `key` for a tool call.
pub fn after_tool_lookup(
    key: &String,
    lookup: &ToolLookup,
    cache_errors: bool,
    now_ms: u64,
    ttl_seconds: u64,
) -> (step: ToolStep)
    ensures
        step@ == after_tool_lookup_spec(key@, found_of(*lookup), *lookup is Failed, cache_errors, now_ms, ttl_seconds),
{
    match lookup {
        ToolLookup::Found { response, created_unix_ms } => {
            let decoded = decode_tool_result(response);
            if !cache_errors && is_error_shaped_tool_result(&decoded.result) {
                let mut mark = CacheMark::new(CacheMarkStatus::Bypass, CacheSurface::Tool);
                mark.reason = Some(CacheReason::CachedError);
                mark.key_hash = Some(copy_key(key));
                ToolStep::RunLive { mark, store_key: Some(copy_key(key)) }
            } else {
                let mut mark = CacheMark::new(CacheMarkStatus::Hit, CacheSurface::Tool);
                mark.key_hash = Some(copy_key(key));
                mark.age_ms = Some(now_ms.saturating_sub(*created_unix_ms));
                mark.ttl_ms = Some(ttl_millis(ttl_seconds));
                mark.saved_invocations = Some(1);
                ToolStep::Replay { mark, result: decoded }
            }
        },
        ToolLookup::Absent => {
            let mut mark = CacheMark::new(CacheMarkStatus::Miss, CacheSurface::Tool);
            mark.key_hash = Some(copy_key(key));
            mark.ttl_ms = Some(ttl_millis(ttl_seconds));
            ToolStep::RunLive { mark, store_key: Some(copy_key(key)) }
        },
        ToolLookup::Failed => {
            let mut mark = CacheMark::new(CacheMarkStatus::Miss, CacheSurface::Tool);
            mark.reason = Some(CacheReason::StoreError);
            mark.key_hash = Some(copy_key(key));
            ToolStep::RunLive { mark, store_key: None }
        },
    }
}

} // verus!
