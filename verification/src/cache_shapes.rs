//! Storage rules of the response cache: which streamed chunks and stored
//! responses can be cached and replayed faithfully, and when a stream is
//! complete.

use vstd::prelude::*;
use crate::json::{
    Json, JsonV, arr_view, entries_get, jas_str, jas_u64, jget, jget_str, jhas_non_null,
    json_view, lemma_arr_view, lemma_obj_view, obj_view,
};
use crate::text::str_is;

verus! {

// ---------------------------------------------------------------------
// Chat stream chunk fidelity.

/// A top-level chunk field the Chat collector cannot reproduce.
pub open spec fn chunk_field_uncollected(name: Seq<char>, value: JsonV) -> bool {
    if value is Null {
        false
    } else if name == "id"@ || name == "object"@ || name == "model"@ {
        !(value is Str)
    } else if name == "created"@ {
        jas_u64(value) is None
    } else if name == "usage"@ || name == "choices"@ {
        false
    } else {
        true
    }
}

pub open spec fn tool_function_field_uncollected(name: Seq<char>, value: JsonV) -> bool {
    !(value is Null) && (if name == "name"@ || name == "arguments"@ { !(value is Str) } else { true })
}

/// Some entry of `es` breaks the field rule of `level`.
pub open spec fn any_entry(es: Seq<(Seq<char>, JsonV)>, level: u8) -> bool 
    decreases es, 0int,
{
    exists|i: int| 0 <= i < es.len() && field_rule(level, es[i].0, es[i].1)
}

/// Some item of `cs` breaks the element rule of `level`.
pub open spec fn any_item(cs: Seq<JsonV>, level: u8) -> bool 
    decreases cs, 0int,
{
    exists|k: int| 0 <= k < cs.len() && element_rule(level, cs[k])
}

pub open spec fn tool_call_field_uncollected(name: Seq<char>, value: JsonV) -> bool 
    decreases value, 0int,
{
    if value is Null {
        false
    } else if name == "index"@ {
        jas_u64(value) is None
    } else if name == "id"@ || name == "type"@ {
        !(value is Str)
    } else if name == "function"@ {
        match value {
            JsonV::Obj(es) => any_entry(es, 4),
            _ => true,
        }
    } else {
        true
    }
}

pub open spec fn tool_call_uncollected(call: JsonV) -> bool 
    decreases call, 0int,
{
    match call {
        JsonV::Obj(es) => any_entry(es, 3),
        _ => true,
    }
}

pub open spec fn delta_field_uncollected(name: Seq<char>, value: JsonV) -> bool 
    decreases value, 0int,
{
    if value is Null {
        false
    } else if name == "role"@ || name == "content"@ {
        !(value is Str)
    } else if name == "tool_calls"@ {
        match value {
            JsonV::Arr(calls) => any_item(calls, 3),
            _ => true,
        }
    } else {
        true
    }
}


pub open spec fn choice_field_uncollected(name: Seq<char>, value: JsonV) -> bool 
    decreases value, 0int,
{
    if value is Null {
        false
    } else if name == "index"@ {
        jas_u64(value) is None
    } else if name == "finish_reason"@ {
        !(value is Str)
    } else if name == "delta"@ {
        match value {
            JsonV::Obj(es) => any_entry(es, 2),
            _ => true,
        }
    } else {
        true
    }
}

pub open spec fn choice_uncollected(choice: JsonV) -> bool 
    decreases choice, 0int,
{
    match choice {
        JsonV::Obj(es) => any_entry(es, 1),
        _ => true,
    }
}

/// A stream chunk carries data the Chat collector would drop: a non-object,
/// or (for chunks with `choices`) any non-null field or choice shape outside
/// what the collector aggregates. Chunks without `choices` are left to the
/// other fidelity checks.
pub open spec fn chunk_uncollected(chunk: JsonV) -> bool {
    match chunk {
        JsonV::Obj(es) => match entries_get(es, "choices"@) {
            None => false,
            Some(choices) => any_entry(es, 0) || match choices {
                JsonV::Null => false,
                JsonV::Arr(cs) => any_item(cs, 1),
                _ => true,
            },
        },
        _ => true,
    }
}

/// Whether any entry of `entries` satisfies the field rule at `level`.
fn any_field(entries: &Vec<(String, Json)>, level: u8) -> (found: bool)
    requires
        level <= 4,
    ensures
        found == exists|i: int| 0 <= i < entries@.len() && field_rule(level, entries@[i].0@, json_view(entries@[i].1)),
    decreases entries, 3int,
{
    let mut i: usize = 0;
    while i < entries.len()
        invariant
            level <= 4,
            i <= entries@.len(),
            forall|t: int| 0 <= t < i ==> !field_rule(level, entries@[t].0@, json_view(entries@[t].1)),
            forall|t: int| 0 <= t < entries@.len() ==> decreases_to!(*entries => entries@[t].1),
        decreases entries.len() - i,
    {
        proof { vstd::std_specs::vec::axiom_vec_index_decreases(*entries, i as int); }
        if field_rule_exec(level, &entries[i].0, &entries[i].1) {
            return true;
        }
        i = i + 1;
    }
    false
}

/// The per-field rules, by nesting level: 0 chunk, 1 choice, 2 delta,
/// 3 tool call, 4 tool function.
pub open spec fn field_rule(level: u8, name: Seq<char>, value: JsonV) -> bool 
    decreases value, 1int,
{
    if level == 0 {
        chunk_field_uncollected(name, value)
    } else if level == 1 {
        choice_field_uncollected(name, value)
    } else if level == 2 {
        delta_field_uncollected(name, value)
    } else if level == 3 {
        tool_call_field_uncollected(name, value)
    } else {
        tool_function_field_uncollected(name, value)
    }
}

/// Whether any element of an array fails the element rule at `level`
/// (1 choices, 3 tool calls).
fn any_element(items: &Vec<Json>, level: u8) -> (found: bool)
    requires
        level == 1 || level == 3,
    ensures
        found == exists|k: int| 0 <= k < items@.len() && element_rule(level, json_view(items@[k])),
    decreases items, 3int,
{
    let mut i: usize = 0;
    while i < items.len()
        invariant
            level == 1 || level == 3,
            i <= items@.len(),
            forall|t: int| 0 <= t < i ==> !element_rule(level, json_view(items@[t])),
        decreases items.len() - i,
    {
        proof { vstd::std_specs::vec::axiom_vec_index_decreases(*items, i as int); }
        let bad = match &items[i] {
            Json::Object(es) => {
                proof { lemma_obj_view(*es, es@.len() as int); lemma_levels(level, *es); }
                any_field(es, level)
            },
            _ => true,
        };
        if bad {
            assert(element_rule(level, json_view(items@[i as int])));
            return true;
        }
        i = i + 1;
    }
    false
}

pub open spec fn element_rule(level: u8, item: JsonV) -> bool 
    decreases item, 1int,
{
    if level == 1 { choice_uncollected(item) } else { tool_call_uncollected(item) }
}

fn field_rule_exec(level: u8, name: &String, value: &Json) -> (bad: bool)
    requires
        level <= 4,
    ensures
        bad == field_rule(level, name@, json_view(*value)),
    decreases value, 2int,
{
    if value.is_null() {
        return false;
    }
    if level == 0 {
        chunk_field_exec(name.as_str(), value)
    } else if level == 1 {
        choice_field_exec(name.as_str(), value)
    } else if level == 2 {
        delta_field_exec(name.as_str(), value)
    } else if level == 3 {
        tool_call_field_exec(name.as_str(), value)
    } else {
        if str_is(name, "name") || str_is(name, "arguments") {
            !value.is_string()
        } else {
            true
        }
    }
}

fn chunk_field_exec(name: &str, value: &Json) -> (bad: bool)
    requires
        !(value@ is Null),
    ensures
        bad == chunk_field_uncollected(name@, json_view(*value)),
{
    if str_is(name, "id") || str_is(name, "object") || str_is(name, "model") {
        !value.is_string()
    } else if str_is(name, "created") {
        value.as_u64().is_none()
    } else if str_is(name, "usage") || str_is(name, "choices") {
        false
    } else {
        true
    }
}

fn choice_field_exec(name: &str, value: &Json) -> (bad: bool)
    requires
        !(value@ is Null),
    ensures
        bad == choice_field_uncollected(name@, json_view(*value)),
    decreases value, 1int,
{
    if str_is(name, "index") {
        value.as_u64().is_none()
    } else if str_is(name, "finish_reason") {
        !value.is_string()
    } else if str_is(name, "delta") {
        match value {
            Json::Object(es) => {
                proof { lemma_obj_view(*es, es@.len() as int); lemma_levels(2, *es); }
                any_field(es, 2)
            },
            _ => true,
        }
    } else {
        true
    }
}

fn delta_field_exec(name: &str, value: &Json) -> (bad: bool)
    requires
        !(value@ is Null),
    ensures
        bad == delta_field_uncollected(name@, json_view(*value)),
    decreases value, 1int,
{
    if str_is(name, "role") || str_is(name, "content") {
        !value.is_string()
    } else if str_is(name, "tool_calls") {
        match value {
            Json::Array(calls) => {
                proof { lemma_arr_view(*calls, calls@.len() as int); lemma_elements(3, *calls); }
                any_element(calls, 3)
            },
            _ => true,
        }
    } else {
        true
    }
}

fn tool_call_field_exec(name: &str, value: &Json) -> (bad: bool)
    requires
        !(value@ is Null),
    ensures
        bad == tool_call_field_uncollected(name@, json_view(*value)),
    decreases value, 1int,
{
    if str_is(name, "index") {
        value.as_u64().is_none()
    } else if str_is(name, "id") || str_is(name, "type") {
        !value.is_string()
    } else if str_is(name, "function") {
        match value {
            Json::Object(es) => {
                proof { lemma_obj_view(*es, es@.len() as int); lemma_levels(4, *es); }
                any_field(es, 4)
            },
            _ => true,
        }
    } else {
        true
    }
}

proof fn lemma_levels(level: u8, es: Vec<(String, Json)>)
    requires
        level <= 4,
    ensures
        (exists|i: int| 0 <= i < es@.len() && field_rule(level, es@[i].0@, json_view(es@[i].1)))
            == any_entry(obj_view(es, es@.len() as int), level),
{
    lemma_obj_view(es, es@.len() as int);
    let ov = obj_view(es, es@.len() as int);
    if exists|i: int| 0 <= i < es@.len() && field_rule(level, es@[i].0@, json_view(es@[i].1)) {
        let i = choose|i: int| 0 <= i < es@.len() && field_rule(level, es@[i].0@, json_view(es@[i].1));
        assert(ov[i] == (es@[i].0@, json_view(es@[i].1)));
    }
    if exists|i: int| 0 <= i < ov.len() && field_rule(level, ov[i].0, ov[i].1) {
        let i = choose|i: int| 0 <= i < ov.len() && field_rule(level, ov[i].0, ov[i].1);
        assert(ov[i] == (es@[i].0@, json_view(es@[i].1)));
    }
}

proof fn lemma_elements(level: u8, items: Vec<Json>)
    requires
        level == 1 || level == 3,
    ensures
        (exists|k: int| 0 <= k < items@.len() && element_rule(level, json_view(items@[k])))
            == any_item(arr_view(items, items@.len() as int), level),
{
    lemma_arr_view(items, items@.len() as int);
    let av = arr_view(items, items@.len() as int);
    if exists|k: int| 0 <= k < items@.len() && element_rule(level, json_view(items@[k])) {
        let k = choose|k: int| 0 <= k < items@.len() && element_rule(level, json_view(items@[k]));
        assert(av[k] == json_view(items@[k]));
    }
    if exists|k: int| 0 <= k < av.len() && element_rule(level, av[k]) {
        let k = choose|k: int| 0 <= k < av.len() && element_rule(level, av[k]);
        assert(av[k] == json_view(items@[k]));
    }
}

/// Whether a streamed chunk carries data the Chat collector cannot keep.
pub fn chunk_has_uncollected_response_fields(chunk: &Json) -> (bad: bool)
    ensures
        bad == chunk_uncollected(chunk@),
{
    let es = match chunk {
        Json::Object(es) => es,
        _ => return true,
    };
    let choices = match chunk.get("choices") {
        Some(c) => c,
        None => return false,
    };
    proof { lemma_obj_view(*es, es@.len() as int); lemma_levels(0, *es); }
    if any_field(es, 0) {
        return true;
    }
    match choices {
        Json::Null => false,
        Json::Array(cs) => {
            proof { lemma_arr_view(*cs, cs@.len() as int); }
            let r = any_element(cs, 1);
            proof { lemma_elements(1, *cs); }
            r
        },
        _ => true,
    }
}

// ---------------------------------------------------------------------
// Aggregate and response checks.

/// `value.get(key)` is an array with no elements, or is not an array.
pub open spec fn empty_or_not_array(value: JsonV, key: Seq<char>) -> bool {
    match jget(value, key) {
        Some(JsonV::Arr(items)) => items.len() == 0,
        _ => true,
    }
}

/// A finalized aggregate has no content in any known provider shape.
pub open spec fn no_content(aggregate: JsonV) -> bool {
    empty_or_not_array(aggregate, "choices"@) && empty_or_not_array(aggregate, "output"@)
        && empty_or_not_array(aggregate, "content"@)
}

fn empty_array_member(value: &Json, key: &str) -> (empty: bool)
    ensures
        empty == empty_or_not_array(value@, key@),
{
    match value.get(key) {
        Some(Json::Array(items)) => {
            proof { lemma_arr_view(*items, items@.len() as int); }
            items.len() == 0
        },
        _ => true,
    }
}

/// True when an aggregate carries no response content (`choices`,
/// `output` and `content` all absent or empty).
pub fn aggregate_has_no_content(aggregate: &Json) -> (empty: bool)
    ensures
        empty == no_content(aggregate@),
{
    empty_array_member(aggregate, "choices") && empty_array_member(aggregate, "output")
        && empty_array_member(aggregate, "content")
}

/// A content block is a thinking block.
pub open spec fn is_thinking_block(block: JsonV) -> bool {
    jget_str(block, "type"@) == Some("thinking"@) || jget_str(block, "type"@) == Some("redacted_thinking"@)
}

/// A choice has no text content and no tool calls.
pub open spec fn choice_is_empty(choice: JsonV) -> bool {
    let content_empty = match jget(choice, "message"@) {
        Some(message) => match jget(message, "content"@) {
            Some(c) => c is Null || jas_str(c) == Some(Seq::<char>::empty()),
            None => true,
        },
        None => true,
    };
    let no_tool_calls = match jget(choice, "message"@) {
        Some(message) => match jget(message, "tool_calls"@) {
            Some(JsonV::Arr(calls)) => calls.len() == 0,
            _ => true,
        },
        None => true,
    };
    content_empty && no_tool_calls
}

/// Some block of a sequence is a thinking block.
pub open spec fn has_thinking_block(blocks: Seq<JsonV>) -> bool {
    exists|k: int| 0 <= k < blocks.len() && #[trigger] is_thinking_block(blocks[k])
}

/// An aggregate's content holds a thinking block.
pub open spec fn replay_lossy_blocks(aggregate: JsonV) -> bool {
    match jget(aggregate, "content"@) {
        Some(JsonV::Arr(blocks)) => has_thinking_block(blocks),
        _ => false,
    }
}

/// An aggregate has at least one choice and every choice is empty.
pub open spec fn replay_lossy_choices(aggregate: JsonV) -> bool {
    match jget(aggregate, "choices"@) {
        Some(JsonV::Arr(choices)) => choices.len() > 0 && forall|k: int| 0 <= k < choices.len() ==> choice_is_empty(choices[k]),
        _ => false,
    }
}

/// An aggregate whose replay would be unfaithful: it has thinking blocks,
/// or every one of its (at least one) choices is empty.
pub open spec fn replay_lossy(aggregate: JsonV) -> bool {
    replay_lossy_blocks(aggregate) || replay_lossy_choices(aggregate)
}

/// Replaying an aggregate whose `content` array holds a block typed
/// `thinking` or `redacted_thinking` would drop that block, so the
/// aggregate is replay-lossy; and for an aggregate with such a `content`
/// array and no `choices`, those are the only blocks that make it so.
pub proof fn lemma_thinking_blocks_make_replay_lossy(aggregate: JsonV, blocks: Seq<JsonV>)
    requires
        jget(aggregate, "content"@) == Some(JsonV::Arr(blocks)),
    ensures
        (exists|k: int| 0 <= k < blocks.len() && (#[trigger] jget_str(blocks[k], "type"@) == Some("thinking"@)
            || jget_str(blocks[k], "type"@) == Some("redacted_thinking"@))) ==> replay_lossy(aggregate),
        jget(aggregate, "choices"@) is None ==> (replay_lossy(aggregate) <==> exists|k: int| 0 <= k < blocks.len()
            && (#[trigger] jget_str(blocks[k], "type"@) == Some("thinking"@)
            || jget_str(blocks[k], "type"@) == Some("redacted_thinking"@))),
{
    if exists|k: int| 0 <= k < blocks.len() && (#[trigger] jget_str(blocks[k], "type"@) == Some("thinking"@)
        || jget_str(blocks[k], "type"@) == Some("redacted_thinking"@)) {
        let k = choose|k: int| 0 <= k < blocks.len() && (#[trigger] jget_str(blocks[k], "type"@) == Some("thinking"@)
            || jget_str(blocks[k], "type"@) == Some("redacted_thinking"@));
        assert(is_thinking_block(blocks[k]));
    }
    if replay_lossy_blocks(aggregate) {
        let k = choose|k: int| 0 <= k < blocks.len() && #[trigger] is_thinking_block(blocks[k]);
        assert(jget_str(blocks[k], "type"@) == Some("thinking"@) || jget_str(blocks[k], "type"@) == Some("redacted_thinking"@));
    }
}

fn block_is_thinking(block: &Json) -> (t: bool)
    ensures
        t == is_thinking_block(block@),
{
    match block.get_str("type") {
        Some(kind) => str_is(kind.as_str(), "thinking") || str_is(kind.as_str(), "redacted_thinking"),
        None => false,
    }
}

fn choice_empty(choice: &Json) -> (e: bool)
    ensures
        e == choice_is_empty(choice@),
{
    let message = choice.get("message");
    let content_empty = match message {
        Some(m) => match m.get("content") {
            Some(c) => c.is_null() || match c.as_text() {
                Some(t) => t.as_str().unicode_len() == 0,
                None => false,
            },
            None => true,
        },
        None => true,
    };
    let no_tool_calls = match message {
        Some(m) => match m.get("tool_calls") {
            Some(Json::Array(calls)) => {
                proof { lemma_arr_view(*calls, calls@.len() as int); }
                calls.len() == 0
            },
            _ => true,
        },
        None => true,
    };
    proof {
        if let Some(m) = message {
            if let Some(c) = jget(m@, "content"@) {
                if let Some(t) = jas_str(c) {
                    assert(t.len() == 0 ==> t =~= Seq::<char>::empty());
                }
            }
        }
    }
    content_empty && no_tool_calls
}

/// Streamed content the collectors assemble lossily: thinking blocks, or
/// choices that are all empty (a refusal-only answer).
pub fn aggregate_replay_lossy(aggregate: &Json) -> (lossy: bool)
    ensures
        lossy == replay_lossy(aggregate@),
{
    let content = aggregate.get("content");
    if let Some(Json::Array(blocks)) = content {
        proof { lemma_arr_view(*blocks, blocks@.len() as int); }
        assert(jget(aggregate@, "content"@) == Some(JsonV::Arr(arr_view(*blocks, blocks@.len() as int))));
        let mut k: usize = 0;
        while k < blocks.len()
            invariant
                k <= blocks@.len(),
                jget(aggregate@, "content"@) == Some(JsonV::Arr(arr_view(*blocks, blocks@.len() as int))),
                arr_view(*blocks, blocks@.len() as int).len() == blocks@.len(),
                forall|t: int| 0 <= t < blocks@.len() ==> #[trigger] arr_view(*blocks, blocks@.len() as int)[t] == json_view(blocks@[t]),
                forall|t: int| 0 <= t < k ==> !is_thinking_block(json_view(blocks@[t])),
            decreases blocks.len() - k,
        {
            if block_is_thinking(&blocks[k]) {
                assert(arr_view(*blocks, blocks@.len() as int)[k as int] == json_view(blocks@[k as int]));
                assert(is_thinking_block(arr_view(*blocks, blocks@.len() as int)[k as int]));
                let ghost bs = arr_view(*blocks, blocks@.len() as int);
                assert(0 <= k < bs.len() && is_thinking_block(bs[k as int]));
                assert(has_thinking_block(bs));
                return true;
            }
            k = k + 1;
        }
        assert forall|t: int| 0 <= t < blocks@.len() implies !is_thinking_block(arr_view(*blocks, blocks@.len() as int)[t]) by {
            assert(arr_view(*blocks, blocks@.len() as int)[t] == json_view(blocks@[t]));
        }
    }
    assert(!replay_lossy_blocks(aggregate@));
    let choices_member = aggregate.get("choices");
    if let Some(Json::Array(choices)) = choices_member {
        proof { lemma_arr_view(*choices, choices@.len() as int); }
        assert(jget(aggregate@, "choices"@) == Some(JsonV::Arr(arr_view(*choices, choices@.len() as int))));
        if choices.len() == 0 {
            return false;
        }
        let mut k: usize = 0;
        while k < choices.len()
            invariant
                k <= choices@.len(),
                !replay_lossy_blocks(aggregate@),
                jget(aggregate@, "choices"@) == Some(JsonV::Arr(arr_view(*choices, choices@.len() as int))),
                arr_view(*choices, choices@.len() as int).len() == choices@.len(),
                forall|t: int| 0 <= t < choices@.len() ==> #[trigger] arr_view(*choices, choices@.len() as int)[t] == json_view(choices@[t]),
                forall|t: int| 0 <= t < k ==> choice_is_empty(json_view(choices@[t])),
            decreases choices.len() - k,
        {
            if !choice_empty(&choices[k]) {
                assert(arr_view(*choices, choices@.len() as int)[k as int] == json_view(choices@[k as int]));
                assert(!choice_is_empty(arr_view(*choices, choices@.len() as int)[k as int]));
                return false;
            }
            k = k + 1;
        }
        assert forall|t: int| 0 <= t < choices@.len() implies choice_is_empty(arr_view(*choices, choices@.len() as int)[t]) by {
            assert(arr_view(*choices, choices@.len() as int)[t] == json_view(choices@[t]));
        }
        return true;
    }
    false
}

/// A provider-native in-band error chunk: a non-null `error`, or a `type` of
/// `error` or `response.failed`.
pub open spec fn inband_error(chunk: JsonV) -> bool {
    jhas_non_null(chunk, "error"@) || jget_str(chunk, "type"@) == Some("error"@)
        || jget_str(chunk, "type"@) == Some("response.failed"@)
}

/// Whether a streamed chunk is a provider in-band error.
pub fn chunk_is_inband_error(chunk: &Json) -> (err: bool)
    ensures
        err == inband_error(chunk@),
{
    if chunk.has_non_null("error") {
        return true;
    }
    match chunk.get_str("type") {
        Some(t) => str_is(t.as_str(), "error") || str_is(t, "response.failed"),
        None => false,
    }
}

/// A response that is not a complete, replayable answer: an object with a
/// non-null `error`, or a non-final `status`.
pub open spec fn error_response(response: JsonV) -> bool {
    response is Obj && (jhas_non_null(response, "error"@) || {
        let s = jget_str(response, "status"@);
        s == Some("failed"@) || s == Some("cancelled"@) || s == Some("canceled"@)
            || s == Some("incomplete"@) || s == Some("in_progress"@) || s == Some("queued"@)
    })
}

/// Whether a response must not be cached.
pub fn is_error_response(response: &Json) -> (err: bool)
    ensures
        err == error_response(response@),
{
    if !response.is_object() {
        return false;
    }
    if response.has_non_null("error") {
        return true;
    }
    match response.get_str("status") {
        Some(s) => {
            let s = s.as_str();
            str_is(s, "failed") || str_is(s, "cancelled") || str_is(s, "canceled")
            || str_is(s, "incomplete") || str_is(s, "in_progress") || str_is(s, "queued")
        },
        None => false,
    }
}

/// A tool result with an explicit in-band error signal: a non-null `error`,
/// or `isError` / `is_error` set to `true`.
pub open spec fn error_shaped_tool_result(result: JsonV) -> bool {
    result is Obj && (jhas_non_null(result, "error"@)
        || match jget(result, "isError"@) { Some(JsonV::Bool(true)) => true, _ => false }
        || match jget(result, "is_error"@) { Some(JsonV::Bool(true)) => true, _ => false })
}

/// Whether a tool result signals an error in-band.
pub fn is_error_shaped_tool_result(result: &Json) -> (err: bool)
    ensures
        err == error_shaped_tool_result(result@),
{
    if !result.is_object() {
        return false;
    }
    result.has_non_null("error")
        || match result.get("isError") { Some(v) => v.as_bool() == Some(true), None => false }
        || match result.get("is_error") { Some(v) => v.as_bool() == Some(true), None => false }
}

// ---------------------------------------------------------------------
// Stream completion.

/// Tracks stream completion: a stop event, or every choice that appeared
/// carrying a `finish_reason`.
pub struct StreamCompletion {
    saw_stop_event: bool,
    choices_seen: Vec<u64>,
    choices_finished: Vec<u64>,
}

impl StreamCompletion {
    pub closed spec fn saw_stop(&self) -> bool {
        self.saw_stop_event
    }

    /// The choice indexes that appeared.
    pub closed spec fn seen(&self) -> Set<u64> {
        self.choices_seen@.to_set()
    }

    /// The choice indexes that carried a non-null `finish_reason`.
    pub closed spec fn finished(&self) -> Set<u64> {
        self.choices_finished@.to_set()
    }

    pub closed spec fn wf(&self) -> bool {
        self.choices_finished@.to_set().subset_of(self.choices_seen@.to_set())
            && self.choices_seen@.no_duplicates() && self.choices_finished@.no_duplicates()
    }

    pub fn new() -> (c: Self)
        ensures
            c.wf(),
            !c.saw_stop(),
            c.seen() == Set::<u64>::empty(),
            c.finished() == Set::<u64>::empty(),
    {
        let c = StreamCompletion { saw_stop_event: false, choices_seen: Vec::new(), choices_finished: Vec::new() };
        assert(c.choices_seen@.to_set() =~= Set::<u64>::empty());
        c
    }

    /// Complete: a stop event was seen, or some choice appeared and every
    /// choice that appeared finished.
    pub open spec fn terminal_spec(&self) -> bool {
        self.saw_stop() || (self.seen() != Set::<u64>::empty() && self.seen() == self.finished())
    }

    pub fn is_terminal(&self) -> (t: bool)
        requires
            self.wf(),
        ensures
            t == self.terminal_spec(),
    {
        if self.saw_stop_event {
            return true;
        }
        if self.choices_seen.len() == 0 {
            assert(self.choices_seen@.to_set() =~= Set::<u64>::empty());
            return false;
        }
        assert(self.choices_seen@.to_set().contains(self.choices_seen@[0]));
        let mut i: usize = 0;
        while i < self.choices_seen.len()
            invariant
                !self.saw_stop_event,
                i <= self.choices_seen@.len(),
                forall|t: int| 0 <= t < i ==> self.choices_finished@.contains(#[trigger] self.choices_seen@[t]),
            decreases self.choices_seen.len() - i,
        {
            if !vec_contains(&self.choices_finished, self.choices_seen[i]) {
                assert(self.choices_seen@.to_set().contains(self.choices_seen@[i as int]));
                assert(!self.choices_finished@.to_set().contains(self.choices_seen@[i as int]));
                assert(self.seen() != self.finished());
                return false;
            }
            i = i + 1;
        }
        assert(self.choices_seen@.to_set() =~= self.choices_finished@.to_set());
        true
    }

    /// Records what one chunk says about completion.
    pub fn observe(&mut self, chunk: &Json)
        requires
            old(self).wf(),
        ensures
            final(self).wf(),
            final(self).saw_stop() == (old(self).saw_stop() || jget_str(chunk@, "type"@) == Some("message_stop"@)
                || jget_str(chunk@, "type"@) == Some("response.completed"@)),
            final(self).seen() == old(self).seen().union(observed_indexes(chunk@)),
            final(self).finished() == old(self).finished().union(finished_indexes(chunk@)),
    {
        if let Some(Json::Array(choices)) = chunk.get("choices") {
            proof { lemma_arr_view(*choices, choices@.len() as int); }
            let ghost cs = arr_view(*choices, choices@.len() as int);
            let ghost seen0 = self.seen();
            let ghost fin0 = self.finished();
            let mut k: usize = 0;
            while k < choices.len()
                invariant
                    k <= choices@.len(),
                    cs.len() == choices@.len(),
                    forall|t: int| 0 <= t < choices@.len() ==> #[trigger] cs[t] == json_view(choices@[t]),
                    self.wf(),
                    self.saw_stop_event == old(self).saw_stop_event,
                    self.seen() == seen0.union(index_set(cs, k as int)),
                    self.finished() == fin0.union(finished_set(cs, k as int)),
                decreases choices.len() - k,
            {
                let choice = &choices[k];
                let index = match choice.get("index") {
                    Some(v) => match v.as_u64() { Some(n) => n, None => 0 },
                    None => 0,
                };
                assert(cs[k as int] == json_view(choices@[k as int]));
                vec_insert(&mut self.choices_seen, index);
                let fin = match choice.get("finish_reason") {
                    Some(r) => !r.is_null(),
                    None => false,
                };
                if fin {
                    vec_insert(&mut self.choices_finished, index);
                }
                assert(self.seen() =~= seen0.union(index_set(cs, k + 1)));
                assert(self.finished() =~= fin0.union(finished_set(cs, k + 1)));
                proof {
                    assert(finished_set(cs, k + 1).subset_of(index_set(cs, k + 1))) by {
                        lemma_finished_subset(cs, k + 1);
                    }
                }
                k = k + 1;
            }
        } else {
            assert(self.seen().union(Set::<u64>::empty()) =~= self.seen());
            assert(self.finished().union(Set::<u64>::empty()) =~= self.finished());
        }
        let stop = match chunk.get_str("type") {
            Some(t) => str_is(t.as_str(), "message_stop") || str_is(t, "response.completed"),
            None => false,
        };
        self.saw_stop_event = self.saw_stop_event || stop;
    }
}

/// The index a choice reports (0 when absent or not an unsigned integer).
pub open spec fn choice_index(choice: JsonV) -> u64 {
    match jget(choice, "index"@) {
        Some(v) => match jas_u64(v) { Some(n) => n, None => 0 },
        None => 0,
    }
}

/// A choice carries a non-null `finish_reason`.
pub open spec fn choice_finished(choice: JsonV) -> bool {
    jhas_non_null(choice, "finish_reason"@)
}

/// The choice indexes a chunk reports.
pub open spec fn observed_indexes(chunk: JsonV) -> Set<u64> {
    match jget(chunk, "choices"@) {
        Some(JsonV::Arr(cs)) => index_set(cs, cs.len() as int),
        _ => Set::empty(),
    }
}

/// The indexes of the first `n` choices.
pub open spec fn index_set(cs: Seq<JsonV>, n: int) -> Set<u64>
    decreases n,
{
    if n <= 0 { Set::empty() } else { index_set(cs, n - 1).insert(choice_index(cs[n - 1])) }
}

/// The indexes of the finished choices among the first `n`.
pub open spec fn finished_set(cs: Seq<JsonV>, n: int) -> Set<u64>
    decreases n,
{
    if n <= 0 {
        Set::empty()
    } else if choice_finished(cs[n - 1]) {
        finished_set(cs, n - 1).insert(choice_index(cs[n - 1]))
    } else {
        finished_set(cs, n - 1)
    }
}

proof fn lemma_finished_subset(cs: Seq<JsonV>, n: int)
    ensures
        finished_set(cs, n).subset_of(index_set(cs, n)),
    decreases n,
{
    if n > 0 {
        lemma_finished_subset(cs, n - 1);
    }
}

/// The choice indexes a chunk reports as finished.
pub open spec fn finished_indexes(chunk: JsonV) -> Set<u64> {
    match jget(chunk, "choices"@) {
        Some(JsonV::Arr(cs)) => finished_set(cs, cs.len() as int),
        _ => Set::empty(),
    }
}

fn vec_contains(v: &Vec<u64>, x: u64) -> (found: bool)
    ensures
        found == v@.contains(x),
{
    let mut i: usize = 0;
    while i < v.len()
        invariant
            i <= v@.len(),
            forall|t: int| 0 <= t < i ==> v@[t] != x,
        decreases v.len() - i,
    {
        if v[i] == x {
            return true;
        }
        i = i + 1;
    }
    false
}

fn vec_insert(v: &mut Vec<u64>, x: u64)
    requires
        old(v)@.no_duplicates(),
    ensures
        final(v)@.no_duplicates(),
        final(v)@.to_set() == old(v)@.to_set().insert(x),
{
    if !vec_contains(v, x) {
        v.push(x);
        assert(final(v)@.to_set() =~= old(v)@.to_set().insert(x)) by {
            assert forall|y: u64| final(v)@.contains(y) <==> (old(v)@.contains(y) || y == x) by {
                if old(v)@.contains(y) {
                    let t = choose|t: int| 0 <= t < old(v)@.len() && old(v)@[t] == y;
                    assert(final(v)@[t] == y);
                }
                if y == x { assert(final(v)@[old(v)@.len() as int] == y); }
            }
        }
    } else {
        assert(v@.to_set() =~= v@.to_set().insert(x));
    }
}

// ---------------------------------------------------------------------
// Backend options.

/// The in-memory byte budget when the backend options do not set one: 256 MiB.
pub const DEFAULT_MAX_BYTES: usize = 268435456;

/// The in-memory byte budget the backend options give: their `max_bytes`
/// member when it is a non-negative integer (taken as `usize`), else the
/// default.
pub open spec fn max_bytes_spec(options: Seq<(Seq<char>, JsonV)>) -> usize {
    match entries_get(options, "max_bytes"@) {
        Some(v) => match jas_u64(v) {
            Some(n) => n as usize,
            None => DEFAULT_MAX_BYTES,
        },
        None => DEFAULT_MAX_BYTES,
    }
}

/// The in-memory total-bytes budget before oldest-first eviction, read from
/// the backend's option entries.
pub fn backend_max_bytes(config: &Vec<(String, Json)>) -> (n: usize)
    ensures
        n == max_bytes_spec(obj_view(*config, config@.len() as int)),
{
    let key = "max_bytes";
    proof { reveal_strlit("max_bytes"); }
    let k = crate::text::to_chars(key);
    let ghost ev = obj_view(*config, config@.len() as int);
    proof { lemma_obj_view(*config, config@.len() as int); }
    assert(ev.skip(0) =~= ev);
    let mut i: usize = 0;
    while i < config.len()
        invariant
            k@ == "max_bytes"@,
            i <= config@.len(),
            ev == obj_view(*config, config@.len() as int),
            ev.len() == config@.len(),
            forall|t: int| 0 <= t < ev.len() ==> #[trigger] ev[t] == (config@[t].0@, json_view(config@[t].1)),
            entries_get(ev, "max_bytes"@) == entries_get(ev.skip(i as int), "max_bytes"@),
        decreases config.len() - i,
    {
        let name = crate::text::to_chars(config[i].0.as_str());
        assert(ev.skip(i as int)[0] == ev[i as int]);
        if crate::text::chars_eq(name.as_slice(), k.as_slice()) {
            assert(ev.skip(i as int)[0].0 == "max_bytes"@);
            return match config[i].1.as_u64() {
                Some(v) => v as usize,
                None => DEFAULT_MAX_BYTES,
            };
        }
        assert(ev.skip(i as int).drop_first() =~= ev.skip(i + 1));
        i = i + 1;
    }
    DEFAULT_MAX_BYTES
}

// ---------------------------------------------------------------------
// What counts as an error, a failed stream chunk, or an empty aggregate.

/// A member `key` of `value` is present and not `null`.
pub open spec fn set_member(value: JsonV, key: Seq<char>) -> bool {
    jget(value, key) is Some && !(jget(value, key)->0 is Null)
}

/// Which responses are never cached: an object with a non-null `error`, or
/// whose `status` is `failed`, `cancelled`, `canceled`, `incomplete`,
/// `in_progress` or `queued`; nothing else, and never a non-object.
pub proof fn lemma_error_responses(response: JsonV)
    ensures
        !(response is Obj) ==> !error_response(response),
        response is Obj && set_member(response, "error"@) ==> error_response(response),
        response is Obj && (jget_str(response, "status"@) == Some("failed"@)
            || jget_str(response, "status"@) == Some("cancelled"@)
            || jget_str(response, "status"@) == Some("canceled"@)
            || jget_str(response, "status"@) == Some("incomplete"@)
            || jget_str(response, "status"@) == Some("in_progress"@)
            || jget_str(response, "status"@) == Some("queued"@)) ==> error_response(response),
        response is Obj && !set_member(response, "error"@)
            && jget_str(response, "status"@) != Some("failed"@)
            && jget_str(response, "status"@) != Some("cancelled"@)
            && jget_str(response, "status"@) != Some("canceled"@)
            && jget_str(response, "status"@) != Some("incomplete"@)
            && jget_str(response, "status"@) != Some("in_progress"@)
            && jget_str(response, "status"@) != Some("queued"@) ==> !error_response(response),
{
}

/// Which tool results signal an error in-band: an object with a non-null
/// `error`, or with `isError` or `is_error` set to `true`; nothing else.
pub proof fn lemma_error_shaped_tool_results(result: JsonV)
    ensures
        !(result is Obj) ==> !error_shaped_tool_result(result),
        result is Obj && (set_member(result, "error"@)
            || jget(result, "isError"@) == Some(JsonV::Bool(true))
            || jget(result, "is_error"@) == Some(JsonV::Bool(true))) ==> error_shaped_tool_result(result),
        !set_member(result, "error"@) && jget(result, "isError"@) != Some(JsonV::Bool(true))
            && jget(result, "is_error"@) != Some(JsonV::Bool(true)) ==> !error_shaped_tool_result(result),
{
}

/// Which stream chunks are provider in-band errors: a non-null `error`, or
/// a `type` of `error` or `response.failed`; nothing else.
pub proof fn lemma_inband_errors(chunk: JsonV)
    ensures
        inband_error(chunk) == (set_member(chunk, "error"@)
            || jget_str(chunk, "type"@) == Some("error"@)
            || jget_str(chunk, "type"@) == Some("response.failed"@)),
{
}

/// An aggregate has content exactly when one of its `choices`, `output` or
/// `content` members is an array with an element.
pub proof fn lemma_aggregate_content(aggregate: JsonV)
    ensures
        !no_content(aggregate) <==> (
            (jget(aggregate, "choices"@) is Some && jget(aggregate, "choices"@)->0 is Arr
                && jget(aggregate, "choices"@)->0->Arr_0.len() > 0)
            || (jget(aggregate, "output"@) is Some && jget(aggregate, "output"@)->0 is Arr
                && jget(aggregate, "output"@)->0->Arr_0.len() > 0)
            || (jget(aggregate, "content"@) is Some && jget(aggregate, "content"@)->0 is Arr
                && jget(aggregate, "content"@)->0->Arr_0.len() > 0)),
{
}

/// An aggregate whose `choices` are all empty (each without text content
/// and tool calls) replays lossily; one whose only choice carries non-empty
/// text does not, unless its `content` holds a thinking block.
pub proof fn lemma_empty_choices_make_replay_lossy(aggregate: JsonV, choices: Seq<JsonV>)
    requires
        jget(aggregate, "choices"@) == Some(JsonV::Arr(choices)),
    ensures
        (choices.len() > 0 && forall|k: int| 0 <= k < choices.len() ==> {
            let m = jget(#[trigger] choices[k], "message"@);
            &&& (m is None || jget(m->0, "content"@) is None || jget(m->0, "content"@)->0 is Null
                || jget(m->0, "content"@)->0 == JsonV::Str(Seq::empty()))
            &&& (m is None || jget(m->0, "tool_calls"@) is None || !(jget(m->0, "tool_calls"@)->0 is Arr)
                || jget(m->0, "tool_calls"@)->0->Arr_0.len() == 0)
        }) ==> replay_lossy(aggregate),
        (choices.len() == 1 && jget(aggregate, "content"@) is None
            && jget(choices[0], "message"@) is Some
            && jget(jget(choices[0], "message"@)->0, "content"@) is Some
            && jget(jget(choices[0], "message"@)->0, "content"@)->0 is Str
            && jget(jget(choices[0], "message"@)->0, "content"@)->0->Str_0.len() > 0) ==> !replay_lossy(aggregate),
{
    if choices.len() > 0 {
        assert(choice_is_empty(choices[0]) ==> true);
    }
}

} // verus!
