//! The messages of the Codex app-server hook client: JSON-RPC requests and
//! notifications, how a reply answers a request, the hook listing, and the
//! configuration edits that trust, clear or restore hook state.
//!
//! Running the app-server, writing lines to it and waiting for replies is
//! left to the caller.

use vstd::prelude::*;
use vstd::string::StringExecFns;
use crate::canonical::{push_quoted, quoted};
use crate::hooks::entries_set;
use crate::json::{
    arr_view, jas_u64, jget, jstr, json_clone, lemma_arr_view, lemma_obj_view, obj_view, Json, JsonNumber, JsonV,
};
use crate::tool_key::set_entry;

verus! {

/// One hook as the app-server lists it.
#[derive(Clone, Debug, PartialEq, Eq)]
pub struct CodexHookMetadata {
    pub key: String,
    pub event_name: String,
    pub handler_type: String,
    pub command: Option<String>,
    pub source_path: String,
    pub source: String,
    pub plugin_id: Option<String>,
    pub enabled: bool,
    pub current_hash: String,
    pub trust_status: String,
}

/// The configuration key path of one hook's state: `hooks.state.` and the
/// key as a JSON string literal (which is what `serde_json::to_string`
/// writes for a string).
pub fn hook_state_key_path(key: &str) -> (path: String)
    ensures
        path@ == "hooks.state."@ + quoted(key@),
{
    let mut path = String::new();
    path.append("hooks.state.");
    push_quoted(&mut path, key);
    assert(path@ =~= "hooks.state."@ + quoted(key@));
    path
}

fn entry(key: &str, value: Json) -> (e: (String, Json))
    ensures
        e.0@ == key@,
        e.1 == value,
{
    (key.to_string(), value)
}

/// A request with `id`.
pub fn request_message(method: &str, id: u64, params: Json) -> (m: Json)
    ensures
        m@ == JsonV::Obj(seq![
            ("method"@, JsonV::Str(method@)),
            ("id"@, JsonV::Num(JsonNumber::PosInt(id))),
            ("params"@, params@),
        ]),
{
    let ghost pv = params@;
    let mut es: Vec<(String, Json)> = Vec::new();
    es.push(entry("method", jstr(method)));
    es.push(entry("id", Json::Number(JsonNumber::PosInt(id))));
    es.push(entry("params", params));
    proof {
        lemma_obj_view(es, 3);
        assert(obj_view(es, 3) =~= seq![
            ("method"@, JsonV::Str(method@)),
            ("id"@, JsonV::Num(JsonNumber::PosInt(id))),
            ("params"@, pv),
        ]);
    }
    Json::Object(es)
}

/// A notification, with its parameters when it has any.
pub fn notification_message(method: &str, params: Option<Json>) -> (m: Json)
    ensures
        m@ == match params {
            Some(p) => JsonV::Obj(seq![("method"@, JsonV::Str(method@)), ("params"@, p@)]),
            None => JsonV::Obj(seq![("method"@, JsonV::Str(method@))]),
        },
{
    let ghost pv: Option<JsonV> = match &params { Some(p) => Some(p@), None => None };
    let mut es: Vec<(String, Json)> = Vec::new();
    es.push(entry("method", jstr(method)));
    match params {
        Some(pj) => {
            es.push(entry("params", pj));
            proof {
                lemma_obj_view(es, 2);
                assert(obj_view(es, 2) =~= seq![("method"@, JsonV::Str(method@)), ("params"@, pv->0)]);
            }
        },
        None => {
            proof {
                lemma_obj_view(es, 1);
                assert(obj_view(es, 1) =~= seq![("method"@, JsonV::Str(method@))]);
            }
        },
    }
    Json::Object(es)
}

/// What a message read from the app-server means to a pending request.
pub enum RequestReply {
    /// The message has another id (or none): keep waiting.
    Unrelated,
    /// The request failed with this error.
    Failed(Json),
    /// The request's result.
    Answered(Json),
    /// The reply carries neither an error nor a result.
    Unanswered,
}

/// How `message` answers the request with `id`: by its `id`, then its
/// `error` member (even `null`), then its `result` member.
pub fn request_reply(message: &Json, id: u64) -> (r: RequestReply)
    ensures
        match jget(message@, "id"@) {
            Some(v) if jas_u64(v) == Some(id) => match jget(message@, "error"@) {
                Some(e) => r matches RequestReply::Failed(x) && x@ == e,
                None => match jget(message@, "result"@) {
                    Some(x) => r matches RequestReply::Answered(y) && y@ == x,
                    None => r is Unanswered,
                },
            },
            _ => r is Unrelated,
        },
{
    let matches_id = match message.get("id") {
        Some(v) => match v.as_u64() {
            Some(n) => n == id,
            None => false,
        },
        None => false,
    };
    if !matches_id {
        return RequestReply::Unrelated;
    }
    if let Some(error) = message.get("error") {
        return RequestReply::Failed(json_clone(error));
    }
    match message.get("result") {
        Some(result) => RequestReply::Answered(json_clone(result)),
        None => RequestReply::Unanswered,
    }
}

fn method_message(before: &str, method: &str, after: &str) -> (m: String)
    ensures
        m@ == before@ + method@ + after@,
{
    let mut m = String::new();
    m.append(before);
    m.append(method);
    m.append(after);
    assert(m@ =~= before@ + method@ + after@);
    m
}

/// The error of a failed request, with the error as JSON text.
pub fn request_failed_message(method: &str, error: &str) -> (m: String)
    ensures
        m@ == "Codex app-server `"@ + method@ + "` failed: "@ + error@,
{
    let mut m = method_message("Codex app-server `", method, "` failed: ");
    m.append(error);
    assert(m@ =~= "Codex app-server `"@ + method@ + "` failed: "@ + error@);
    m
}

/// The error of a reply without a result.
pub fn no_result_message(method: &str) -> (m: String)
    ensures
        m@ == "Codex app-server `"@ + method@ + "` response had no result"@,
{
    method_message("Codex app-server `", method, "` response had no result")
}

/// The error of a request whose reply did not come in time.
pub fn timeout_message(method: &str) -> (m: String)
    ensures
        m@ == "timed out waiting for Codex app-server `"@ + method@ + "` response"@,
{
    method_message("timed out waiting for Codex app-server `", method, "` response")
}

/// The first entry of a hook listing.
pub enum HookListing {
    /// The listed hooks (an empty array when the entry lists none).
    Hooks(Json),
    /// The app-server could not load the hooks.
    LoadErrors(Vec<Json>),
}

pub open spec fn first_item(v: Option<JsonV>) -> Option<JsonV> {
    match v {
        Some(JsonV::Arr(items)) => if items.len() > 0 { Some(items[0]) } else { None },
        _ => None,
    }
}

/// The first entry of a `hooks/list` result: its load errors when it has
/// any, else its hooks.
pub fn hook_listing(response: &Json) -> (r: Result<HookListing, String>)
    ensures
        match first_item(jget(response@, "data"@)) {
            None => r matches Err(m) && m@ == "Codex app-server returned no hook-list entry"@,
            Some(entry) => match jget(entry, "errors"@) {
                Some(JsonV::Arr(errors)) if errors.len() > 0 => r matches Ok(HookListing::LoadErrors(es))
                    && arr_view(es, es@.len() as int) == errors,
                _ => r matches Ok(HookListing::Hooks(h)) && h@ == match jget(entry, "hooks"@) {
                    Some(hooks) => hooks,
                    None => JsonV::Arr(Seq::empty()),
                },
            },
        },
{
    let data = match response.get("data") {
        Some(d) => d,
        None => return Err("Codex app-server returned no hook-list entry".to_string()),
    };
    let items = match data.as_array() {
        Some(items) => items,
        None => return Err("Codex app-server returned no hook-list entry".to_string()),
    };
    proof { lemma_arr_view(*items, items@.len() as int); }
    if items.len() == 0 {
        return Err("Codex app-server returned no hook-list entry".to_string());
    }
    let entry = &items[0];
    if let Some(errors) = entry.get("errors") {
        if let Some(list) = errors.as_array() {
            if list.len() > 0 {
                let mut copy: Vec<Json> = Vec::new();
                let mut i: usize = 0;
                proof { lemma_arr_view(*list, list@.len() as int); }
                while i < list.len()
                    invariant
                        i <= list@.len(),
                        copy@.len() == i,
                        forall|t: int| 0 <= t < i ==> #[trigger] copy@[t]@ == list@[t]@,
                    decreases list.len() - i,
                {
                    copy.push(json_clone(&list[i]));
                    i = i + 1;
                }
                proof {
                    lemma_arr_view(copy, copy@.len() as int);
                    lemma_arr_view(*list, list@.len() as int);
                    assert(copy@.len() == list@.len());
                    assert forall|t: int| 0 <= t < copy@.len() implies
                        #[trigger] arr_view(copy, copy@.len() as int)[t] == arr_view(*list, list@.len() as int)[t] by {
                        assert(copy@[t]@ == list@[t]@);
                    }
                    assert(arr_view(copy, copy@.len() as int) =~= arr_view(*list, list@.len() as int));
                }
                return Ok(HookListing::LoadErrors(copy));
            }
        }
    }
    match entry.get("hooks") {
        Some(h) => Ok(HookListing::Hooks(json_clone(h))),
        None => {
            let empty: Vec<Json> = Vec::new();
            proof { lemma_arr_view(empty, 0); }
            assert(arr_view(empty, 0) =~= Seq::<JsonV>::empty());
            Ok(HookListing::Hooks(Json::Array(empty)))
        },
    }
}

/// The state of one trusted hook: its current hash, enabled.
pub open spec fn trusted_state(hash: Seq<char>) -> JsonV {
    JsonV::Obj(seq![("trusted_hash"@, JsonV::Str(hash)), ("enabled"@, JsonV::Bool(true))])
}

/// The `hooks.state` members after trusting the first `n` hooks, each by
/// its key (a later hook with the same key wins).
pub open spec fn trusted_states(hooks: Seq<CodexHookMetadata>, n: int) -> Seq<(Seq<char>, JsonV)>
    decreases n,
{
    if n <= 0 || n > hooks.len() {
        Seq::empty()
    } else {
        entries_set(trusted_states(hooks, n - 1), hooks[n - 1].key@, trusted_state(hooks[n - 1].current_hash@))
    }
}

/// An upsert edit of one configuration key path.
pub open spec fn upsert_edit(key_path: Seq<char>, value: JsonV) -> JsonV {
    JsonV::Obj(seq![("keyPath"@, JsonV::Str(key_path)), ("value"@, value), ("mergeStrategy"@, JsonV::Str("upsert"@))])
}

fn upsert(key_path: String, value: Json) -> (e: Json)
    ensures
        e@ == upsert_edit(key_path@, value@),
{
    let ghost kv = key_path@;
    let ghost vv = value@;
    let mut es: Vec<(String, Json)> = Vec::new();
    es.push(("keyPath".to_string(), Json::String(key_path)));
    es.push(("value".to_string(), value));
    es.push(("mergeStrategy".to_string(), jstr("upsert")));
    proof {
        lemma_obj_view(es, 3);
        assert(obj_view(es, 3) =~= upsert_edit(kv, vv)->Obj_0);
    }
    Json::Object(es)
}

/// The edit that trusts each listed hook at its current hash and enables
/// it.
pub fn trust_hooks_edit(hooks: &Vec<CodexHookMetadata>) -> (e: Json)
    ensures
        e@ == upsert_edit("hooks.state"@, JsonV::Obj(trusted_states(hooks@, hooks@.len() as int))),
{
    let mut state: Vec<(String, Json)> = Vec::new();
    proof { lemma_obj_view(state, 0); }
    let mut i: usize = 0;
    while i < hooks.len()
        invariant
            i <= hooks@.len(),
            obj_view(state, state@.len() as int) == trusted_states(hooks@, i as int),
        decreases hooks.len() - i,
    {
        let hook = &hooks[i];
        let mut fields: Vec<(String, Json)> = Vec::new();
        fields.push(("trusted_hash".to_string(), Json::String(hook.current_hash.clone())));
        fields.push(("enabled".to_string(), Json::Bool(true)));
        proof {
            lemma_obj_view(fields, 2);
            assert(obj_view(fields, 2) =~= trusted_state(hook.current_hash@)->Obj_0);
        }
        set_entry(&mut state, hook.key.clone(), Json::Object(fields));
        i = i + 1;
    }
    upsert("hooks.state".to_string(), Json::Object(state))
}

/// The edits that clear the stored state of each keyed hook.
pub fn clear_hook_trust_edits(keys: &Vec<String>) -> (edits: Vec<Json>)
    ensures
        edits@.len() == keys@.len(),
        forall|i: int| 0 <= i < keys@.len() ==>
            (#[trigger] edits@[i])@ == upsert_edit("hooks.state."@ + quoted(keys@[i]@), JsonV::Null),
{
    let mut edits: Vec<Json> = Vec::new();
    let mut i: usize = 0;
    while i < keys.len()
        invariant
            i <= keys@.len(),
            edits@.len() == i,
            forall|t: int| 0 <= t < i ==>
                (#[trigger] edits@[t])@ == upsert_edit("hooks.state."@ + quoted(keys@[t]@), JsonV::Null),
        decreases keys.len() - i,
    {
        edits.push(upsert(hook_state_key_path(keys[i].as_str()), Json::Null));
        i = i + 1;
    }
    edits
}

/// The edits that put back each keyed hook's earlier state (`null` where
/// it had none).
pub fn restore_hook_trust_edits(state: &Vec<(String, Option<Json>)>) -> (edits: Vec<Json>)
    ensures
        edits@.len() == state@.len(),
        forall|i: int| 0 <= i < state@.len() ==>
            (#[trigger] edits@[i])@ == upsert_edit("hooks.state."@ + quoted(state@[i].0@), match state@[i].1 {
                Some(v) => v@,
                None => JsonV::Null,
            }),
{
    let mut edits: Vec<Json> = Vec::new();
    let mut i: usize = 0;
    while i < state.len()
        invariant
            i <= state@.len(),
            edits@.len() == i,
            forall|t: int| 0 <= t < i ==>
                (#[trigger] edits@[t])@ == upsert_edit("hooks.state."@ + quoted(state@[t].0@), match state@[t].1 {
                    Some(v) => v@,
                    None => JsonV::Null,
                }),
        decreases state.len() - i,
    {
        let value = match &state[i].1 {
            Some(v) => json_clone(v),
            None => Json::Null,
        };
        edits.push(upsert(hook_state_key_path(state[i].0.as_str()), value));
        i = i + 1;
    }
    edits
}

/// The parameters of a `config/batchWrite` request: the edits, and a reload
/// of the user configuration.
pub fn batch_write_params(edits: Vec<Json>) -> (p: Json)
    ensures
        p@ == JsonV::Obj(seq![
            ("edits"@, JsonV::Arr(arr_view(edits, edits@.len() as int))),
            ("reloadUserConfig"@, JsonV::Bool(true)),
        ]),
{
    let ghost ev = arr_view(edits, edits@.len() as int);
    let mut es: Vec<(String, Json)> = Vec::new();
    es.push(("edits".to_string(), Json::Array(edits)));
    es.push(("reloadUserConfig".to_string(), Json::Bool(true)));
    proof {
        lemma_obj_view(es, 2);
        assert(obj_view(es, 2) =~= seq![("edits"@, JsonV::Arr(ev)), ("reloadUserConfig"@, JsonV::Bool(true))]);
    }
    Json::Object(es)
}

/// The parameters of the `initialize` request: the client's name, title
/// and version.
pub fn initialize_params(version: &str) -> (p: Json)
    ensures
        p@ == JsonV::Obj(seq![("clientInfo"@, JsonV::Obj(seq![
            ("name"@, JsonV::Str("nemo_relay"@)),
            ("title"@, JsonV::Str("NeMo Relay"@)),
            ("version"@, JsonV::Str(version@)),
        ]))]),
{
    let mut info: Vec<(String, Json)> = Vec::new();
    info.push(("name".to_string(), jstr("nemo_relay")));
    info.push(("title".to_string(), jstr("NeMo Relay")));
    info.push(("version".to_string(), jstr(version)));
    proof {
        lemma_obj_view(info, 3);
        assert(obj_view(info, 3) =~= seq![
            ("name"@, JsonV::Str("nemo_relay"@)),
            ("title"@, JsonV::Str("NeMo Relay"@)),
            ("version"@, JsonV::Str(version@)),
        ]);
    }
    let ghost iv = obj_view(info, 3);
    let mut es: Vec<(String, Json)> = Vec::new();
    es.push(("clientInfo".to_string(), Json::Object(info)));
    proof {
        lemma_obj_view(es, 1);
        assert(obj_view(es, 1) =~= seq![("clientInfo"@, JsonV::Obj(iv))]);
    }
    Json::Object(es)
}

} // verus!
