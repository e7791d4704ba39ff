//! The minimal MCP / JSON-RPC protocol the lifecycle client answers, and
//! the bounded newline framing of its stdio transport.

use vstd::prelude::*;
use crate::json::{jget, jget_str, json_clone, lemma_obj_view, obj_view, Json, JsonNumber, JsonV};
use crate::text::str_is;

verus! {

/// The protocol version this client speaks by default.
pub const MCP_PROTOCOL_VERSION: &'static str = "2025-11-25";

/// The older protocol version it also accepts.
pub const MCP_PREVIOUS_PROTOCOL_VERSION: &'static str = "2025-06-18";

/// The largest frame the transport accepts, newline included.
pub const MAX_MCP_FRAME_BYTES: usize = 1048576;

/// The JSON number of an integer, as the JSON writer classifies it.
pub open spec fn int_number(n: i64) -> JsonNumber {
    if n < 0 { JsonNumber::NegInt(n) } else { JsonNumber::PosInt(n as u64) }
}

/// A JSON-RPC error response (keys in ascending order).
pub open spec fn error_spec(id: JsonV, code: i64, message: Seq<char>) -> JsonV {
    JsonV::Obj(seq![
        ("error"@, JsonV::Obj(seq![("code"@, JsonV::Num(int_number(code))), ("message"@, JsonV::Str(message))])),
        ("id"@, id),
        ("jsonrpc"@, JsonV::Str("2.0"@)),
    ])
}

/// A JSON-RPC success response (keys in ascending order).
pub open spec fn result_spec(id: JsonV, result: JsonV) -> JsonV {
    JsonV::Obj(seq![("id"@, id), ("jsonrpc"@, JsonV::Str("2.0"@)), ("result"@, result)])
}

/// The `initialize` result announcing `protocol` and this server.
pub open spec fn initialize_result(protocol: Seq<char>, server_version: Seq<char>) -> JsonV {
    JsonV::Obj(seq![
        ("capabilities"@, JsonV::Obj(Seq::empty())),
        ("protocolVersion"@, JsonV::Str(protocol)),
        ("serverInfo"@, JsonV::Obj(seq![("name"@, JsonV::Str("nemo-relay"@)), ("version"@, JsonV::Str(server_version))])),
    ])
}

/// A request id is a string or an integer.
pub open spec fn valid_id(id: JsonV) -> bool {
    id is Str || id matches JsonV::Num(JsonNumber::PosInt(_)) || id matches JsonV::Num(JsonNumber::NegInt(_))
}

/// The protocol version answered to a requested one: the request's own when
/// supported, else the default.
pub open spec fn negotiated(requested: Seq<char>) -> Seq<char> {
    if requested == MCP_PROTOCOL_VERSION@ || requested == MCP_PREVIOUS_PROTOCOL_VERSION@ {
        requested
    } else {
        MCP_PROTOCOL_VERSION@
    }
}

/// The response to one decoded message, `None` for a notification.
pub open spec fn response_spec(message: JsonV, server_version: Seq<char>) -> Option<JsonV> {
    let raw_id = jget(message, "id"@);
    let response_id = match raw_id {
        Some(id) => if valid_id(id) { id } else { JsonV::Null },
        None => JsonV::Null,
    };
    let method = jget_str(message, "method"@);
    if !(message is Obj) || jget_str(message, "jsonrpc"@) != Some("2.0"@) {
        Some(error_spec(response_id, -32600i64, "Invalid Request"@))
    } else if raw_id is Some && !valid_id(raw_id->0) {
        Some(error_spec(JsonV::Null, -32600i64, "Invalid Request"@))
    } else if method is None {
        Some(error_spec(response_id, -32600i64, "Invalid Request"@))
    } else if raw_id is None {
        None
    } else {
        let id = raw_id->0;
        let m = method->0;
        if m == "initialize"@ {
            match jget(message, "params"@) {
                Some(params) => match jget_str(params, "protocolVersion"@) {
                    Some(p) => Some(result_spec(id, initialize_result(negotiated(p), server_version))),
                    None => Some(error_spec(id, -32602i64, "Missing protocolVersion"@)),
                },
                None => Some(error_spec(id, -32602i64, "Missing protocolVersion"@)),
            }
        } else if m == "tools/list"@ {
            Some(result_spec(id, JsonV::Obj(seq![("tools"@, JsonV::Arr(Seq::empty()))])))
        } else if m == "ping"@ {
            Some(result_spec(id, JsonV::Obj(Seq::empty())))
        } else {
            Some(error_spec(id, -32601i64, "Method not found"@))
        }
    }
}

/// Whether a value may serve as a request id.
pub fn valid_request_id(id: &Json) -> (valid: bool)
    ensures
        valid == valid_id(id@),
{
    id.is_string() || id.as_i64().is_some() || id.as_u64().is_some()
}

fn entry(key: &str, value: Json) -> (e: (String, Json))
    ensures
        e.0@ == key@,
        e.1 == value,
{
    (key.to_owned(), value)
}

fn number_of(n: i64) -> (j: Json)
    ensures
        j@ == JsonV::Num(int_number(n)),
{
    if n < 0 {
        Json::Number(JsonNumber::NegInt(n))
    } else {
        Json::Number(JsonNumber::PosInt(n as u64))
    }
}

/// A JSON-RPC error response for `id`.
pub fn jsonrpc_error(id: Json, code: i64, message: &str) -> (response: Json)
    ensures
        response@ == error_spec(id@, code, message@),
{
    let mut inner: Vec<(String, Json)> = Vec::new();
    inner.push(entry("code", number_of(code)));
    inner.push(entry("message", Json::String(message.to_owned())));
    proof {
        lemma_obj_view(inner, 2);
    }
    assert(obj_view(inner, 2) =~= seq![("code"@, JsonV::Num(int_number(code))), ("message"@, JsonV::Str(message@))]);
    let error = Json::Object(inner);
    let mut outer: Vec<(String, Json)> = Vec::new();
    outer.push(entry("error", error));
    outer.push(entry("id", id));
    outer.push(entry("jsonrpc", Json::String("2.0".to_owned())));
    proof {
        lemma_obj_view(outer, 3);
        assert(obj_view(outer, 3) =~= error_spec(id@, code, message@)->Obj_0);
    }
    Json::Object(outer)
}

fn jsonrpc_result(id: Json, result: Json) -> (response: Json)
    ensures
        response@ == result_spec(id@, result@),
{
    let mut outer: Vec<(String, Json)> = Vec::new();
    outer.push(entry("id", id));
    outer.push(entry("jsonrpc", Json::String("2.0".to_owned())));
    outer.push(entry("result", result));
    proof {
        lemma_obj_view(outer, 3);
        assert(obj_view(outer, 3) =~= result_spec(id@, result@)->Obj_0);
    }
    Json::Object(outer)
}

fn empty_object() -> (j: Json)
    ensures
        j@ == JsonV::Obj(Seq::empty()),
{
    let v: Vec<(String, Json)> = Vec::new();
    proof {
        lemma_obj_view(v, 0);
    }
    Json::Object(v)
}

fn initialize_object(protocol: &str, server_version: &str) -> (j: Json)
    ensures
        j@ == initialize_result(protocol@, server_version@),
{
    let mut info: Vec<(String, Json)> = Vec::new();
    info.push(entry("name", Json::String("nemo-relay".to_owned())));
    info.push(entry("version", Json::String(server_version.to_owned())));
    proof {
        lemma_obj_view(info, 2);
    }
    assert(obj_view(info, 2) =~= seq![("name"@, JsonV::Str("nemo-relay"@)), ("version"@, JsonV::Str(server_version@))]);
    let info = Json::Object(info);
    let mut result: Vec<(String, Json)> = Vec::new();
    result.push(entry("capabilities", empty_object()));
    result.push(entry("protocolVersion", Json::String(protocol.to_owned())));
    result.push(entry("serverInfo", info));
    proof {
        lemma_obj_view(result, 3);
        assert(obj_view(result, 3) =~= initialize_result(protocol@, server_version@)->Obj_0);
    }
    Json::Object(result)
}

fn tools_list_object() -> (j: Json)
    ensures
        j@ == JsonV::Obj(seq![("tools"@, JsonV::Arr(Seq::empty()))]),
{
    let tools: Vec<Json> = Vec::new();
    proof {
        crate::json::lemma_arr_view(tools, 0);
    }
    let mut result: Vec<(String, Json)> = Vec::new();
    result.push(entry("tools", Json::Array(tools)));
    proof {
        lemma_obj_view(result, 1);
        assert(obj_view(result, 1) =~= seq![("tools"@, JsonV::Arr(Seq::empty()))]);
    }
    Json::Object(result)
}

/// The protocol response to one decoded message; `None` for a well-formed
/// notification. `server_version` is announced by `initialize`.
pub fn response_for(message: &Json, server_version: &str) -> (response: Option<Json>)
    ensures
        match response {
            Some(r) => response_spec(message@, server_version@) == Some(r@),
            None => response_spec(message@, server_version@) is None,
        },
{
    let raw_id = message.get("id");
    let response_id = match raw_id {
        Some(id) => if valid_request_id(id) { json_clone(id) } else { Json::Null },
        None => Json::Null,
    };
    let well_formed = message.is_object() && match message.get_str("jsonrpc") {
        Some(v) => str_is(v.as_str(), "2.0"),
        None => false,
    };
    if !well_formed {
        return Some(jsonrpc_error(response_id, -32600, "Invalid Request"));
    }
    let method = message.get_str("method");
    if let Some(id) = raw_id {
        if !valid_request_id(id) {
            return Some(jsonrpc_error(Json::Null, -32600, "Invalid Request"));
        }
    }
    let m = match method {
        Some(m) => m,
        None => return Some(jsonrpc_error(response_id, -32600, "Invalid Request")),
    };
    let id = match raw_id {
        Some(id) => json_clone(id),
        None => return None,
    };
    if str_is(m.as_str(), "initialize") {
        let requested = match message.get("params") {
            Some(params) => params.get_str("protocolVersion"),
            None => None,
        };
        match requested {
            Some(p) => {
                let protocol = if str_is(p.as_str(), MCP_PROTOCOL_VERSION) || str_is(p.as_str(), MCP_PREVIOUS_PROTOCOL_VERSION) {
                    p.as_str()
                } else {
                    MCP_PROTOCOL_VERSION
                };
                Some(jsonrpc_result(id, initialize_object(protocol, server_version)))
            },
            None => Some(jsonrpc_error(id, -32602, "Missing protocolVersion")),
        }
    } else if str_is(m.as_str(), "tools/list") {
        Some(jsonrpc_result(id, tools_list_object()))
    } else if str_is(m.as_str(), "ping") {
        Some(jsonrpc_result(id, empty_object()))
    } else {
        Some(jsonrpc_error(id, -32601, "Method not found"))
    }
}

/// The response to one frame: a parse error for a frame that is not JSON,
/// else the response to the decoded message.
pub fn evaluate_frame(decoded: Option<Json>, server_version: &str) -> (response: Option<Json>)
    ensures
        match decoded {
            None => response matches Some(r) && r@ == error_spec(JsonV::Null, -32700i64, "Parse error"@),
            Some(message) => match response {
                Some(r) => response_spec(message@, server_version@) == Some(r@),
                None => response_spec(message@, server_version@) is None,
            },
        },
{
    match decoded {
        None => Some(jsonrpc_error(Json::Null, -32700, "Parse error")),
        Some(message) => response_for(&message, server_version),
    }
}

/// Every well-formed request with a valid id is answered, and its answer
/// carries the request's id.
pub proof fn lemma_requests_are_answered_with_their_id(message: JsonV, server_version: Seq<char>)
    requires
        message is Obj,
        jget_str(message, "jsonrpc"@) == Some("2.0"@),
        jget_str(message, "method"@) is Some,
        jget(message, "id"@) matches Some(id) && valid_id(id),
    ensures
        response_spec(message, server_version) matches Some(r) && jget(r, "id"@) == jget(message, "id"@),
{
    reveal_strlit("error");
    reveal_strlit("id");
    reveal_strlit("jsonrpc");
    reveal_strlit("result");
    let r = response_spec(message, server_version)->0;
    let es = r->Obj_0;
    reveal_with_fuel(crate::json::entries_get, 3);
    assert("error"@[0] != "id"@[0]);
    assert("id"@ != "error"@);
    assert(es.len() == 3);
    if es[0].0 == "id"@ {
        assert(jget(r, "id"@) == Some(es[0].1));
    } else {
        assert(es[0].0 == "error"@);
        assert(es.drop_first()[0] == es[1]);
        assert(jget(r, "id"@) == Some(es[1].1));
    }
}

/// A well-formed notification (no id) gets no response.
pub proof fn lemma_notifications_are_not_answered(message: JsonV, server_version: Seq<char>)
    requires
        message is Obj,
        jget_str(message, "jsonrpc"@) == Some("2.0"@),
        jget_str(message, "method"@) is Some,
        jget(message, "id"@) is None,
    ensures
        response_spec(message, server_version) is None,
{
}

/// How `response_for` answers any message: nothing exactly for a
/// notification (an object with `"jsonrpc": "2.0"`, a string `method` and
/// no `id`); `-32600 Invalid Request` for a non-object or a wrong
/// `jsonrpc`, answered to the message's id when that is a string or an
/// integer and to `null` otherwise; `-32600` to `null` for an id of another
/// kind; and `-32601 Method not found` to the id for a method it does not
/// know.
pub proof fn lemma_response_cases(message: JsonV, server_version: Seq<char>)
    ensures
        response_spec(message, server_version) is None <==> (
            message is Obj
            && jget_str(message, "jsonrpc"@) == Some("2.0"@)
            && jget_str(message, "method"@) is Some
            && jget(message, "id"@) is None),
        (!(message is Obj) || jget_str(message, "jsonrpc"@) != Some("2.0"@)) ==>
            response_spec(message, server_version) == Some(error_spec(
                match jget(message, "id"@) {
                    Some(id) => if valid_id(id) { id } else { JsonV::Null },
                    None => JsonV::Null,
                },
                -32600i64,
                "Invalid Request"@,
            )),
        (message is Obj && jget_str(message, "jsonrpc"@) == Some("2.0"@)
            && jget(message, "id"@) is Some && !valid_id(jget(message, "id"@)->0)) ==>
            response_spec(message, server_version) == Some(error_spec(JsonV::Null, -32600i64, "Invalid Request"@)),
        (message is Obj && jget_str(message, "jsonrpc"@) == Some("2.0"@)
            && jget(message, "id"@) is Some && valid_id(jget(message, "id"@)->0)
            && jget_str(message, "method"@) is Some
            && jget_str(message, "method"@)->0 != "initialize"@
            && jget_str(message, "method"@)->0 != "tools/list"@
            && jget_str(message, "method"@)->0 != "ping"@) ==>
            response_spec(message, server_version) == Some(error_spec(
                jget(message, "id"@)->0, -32601i64, "Method not found"@)),
{
}

/// What to do with the bytes a reader has buffered while assembling a frame.
pub enum FrameStep {
    /// Nothing is buffered: the input ended.
    End,
    /// The frame would exceed the limit.
    TooLarge,
    /// Take the first `consumed` buffered bytes; `complete` when they end
    /// with the frame's newline.
    Take { consumed: usize, complete: bool },
}

/// The index of the first newline in `bytes`, if any.
pub open spec fn first_newline(bytes: Seq<u8>) -> Option<int> {
    if exists|i: int| 0 <= i < bytes.len() && bytes[i] == 10u8 {
        Some(choose|i: int| 0 <= i < bytes.len() && bytes[i] == 10u8 && forall|j: int| 0 <= j < i ==> bytes[j] != 10u8)
    } else {
        None
    }
}

/// A frame step as values.
pub enum FrameStepV {
    End,
    TooLarge,
    Take { consumed: nat, complete: bool },
}

pub open spec fn step_view(step: FrameStep) -> FrameStepV {
    match step {
        FrameStep::End => FrameStepV::End,
        FrameStep::TooLarge => FrameStepV::TooLarge,
        FrameStep::Take { consumed, complete } => FrameStepV::Take { consumed: consumed as nat, complete },
    }
}

/// The length of the frame at the start of `bytes`: up to and including the
/// first newline, or all of them.
pub open spec fn frame_len_in(bytes: Seq<u8>) -> int {
    match first_newline(bytes) {
        Some(i) => i + 1,
        None => bytes.len() as int,
    }
}

/// The step a frame of `frame_len` bytes takes on `available`: the end of
/// input when nothing is buffered; else the frame's bytes among them, unless
/// the frame would exceed `limit`.
pub open spec fn frame_step_spec(frame_len: int, available: Seq<u8>, limit: int) -> FrameStepV {
    if available.len() == 0 {
        FrameStepV::End
    } else if frame_len + frame_len_in(available) > limit {
        FrameStepV::TooLarge
    } else {
        FrameStepV::Take { consumed: frame_len_in(available) as nat, complete: first_newline(available) is Some }
    }
}

/// The step for a frame of `frame_len` bytes so far when `available` is
/// buffered: the bytes up to and including the first newline, or all of
/// them, unless that would exceed `limit`.
pub fn frame_step(frame_len: usize, available: &[u8], limit: usize) -> (step: FrameStep)
    ensures
        step_view(step) == frame_step_spec(frame_len as int, available@, limit as int),
        available@.len() == 0 ==> step is End,
        available@.len() > 0 ==> {
            let n: int = match first_newline(available@) {
                Some(i) => i + 1,
                None => available@.len() as int,
            };
            if frame_len + n > limit {
                step is TooLarge
            } else {
                step matches FrameStep::Take { consumed, complete }
                    && consumed == n && complete == (first_newline(available@) is Some)
                    && 0 < consumed <= available@.len()
                    && complete == (available@[consumed - 1] == 10u8)
            }
        },
{
    if available.len() == 0 {
        return FrameStep::End;
    }
    let mut i: usize = 0;
    while i < available.len() && available[i] != 10u8
        invariant
            i <= available@.len(),
            forall|j: int| 0 <= j < i ==> available@[j] != 10u8,
        decreases available.len() - i,
    {
        i = i + 1;
    }
    let found = i < available.len();
    proof {
        if found {
            assert(available@[i as int] == 10u8);
            let w = choose|k: int| 0 <= k < available@.len() && available@[k] == 10u8 && forall|j: int| 0 <= j < k ==> available@[j] != 10u8;
            assert(0 <= i < available@.len() && available@[i as int] == 10u8 && forall|j: int| 0 <= j < i ==> available@[j] != 10u8);
            if w < i {
                assert(available@[w] != 10u8);
            } else if w > i {
                assert(available@[i as int] != 10u8);
            }
            assert(first_newline(available@) == Some(i as int));
        } else {
            assert(first_newline(available@) is None);
        }
    }
    let consumed = if found { i + 1 } else { available.len() };
    if consumed > limit || frame_len > limit - consumed {
        return FrameStep::TooLarge;
    }
    let complete = available[consumed - 1] == 10u8;
    assert(complete == found) by {
        if !found {
            assert(available@[consumed - 1] != 10u8);
        }
    }
    FrameStep::Take { consumed, complete }
}

// ---------------------------------------------------------------------
// A whole frame, read through any chunking of the input.

/// How many bytes a reader offers when `rest` remains and it chose `size`:
/// at least one and at most all of them (`0` or too many means all).
pub open spec fn offered(rest: Seq<u8>, size: nat) -> int {
    if size == 0 || size > rest.len() { rest.len() as int } else { size as int }
}

/// Reading a frame by repeated `frame_step`s, onto `frame`, from the input
/// bytes `rest` that a reader offers in pieces of the chosen `sizes` (all
/// of the rest once the sizes run out): whether it succeeded, the frame,
/// and how many input bytes were consumed.
pub open spec fn read_frame_spec(frame: Seq<u8>, rest: Seq<u8>, sizes: Seq<nat>, limit: int) -> (bool, Seq<u8>, int)
    decreases rest.len(),
{
    let k = offered(rest, if sizes.len() == 0 { 0 } else { sizes[0] });
    let available = rest.take(k);
    match frame_step_spec(frame.len() as int, available, limit) {
        FrameStepV::End => (true, frame, 0),
        FrameStepV::TooLarge => (false, frame, 0),
        FrameStepV::Take { consumed, complete } => if complete || consumed == 0 {
            (true, frame + available.take(consumed as int), consumed as int)
        } else {
            let r = read_frame_spec(
                frame + available.take(consumed as int),
                rest.skip(consumed as int),
                sizes.drop_first(),
                limit,
            );
            (r.0, r.1, r.2 + consumed)
        },
    }
}

/// What `first_newline` gives.
pub proof fn lemma_first_newline(s: Seq<u8>)
    ensures
        match first_newline(s) {
            Some(i) => 0 <= i < s.len() && s[i] == 10u8 && forall|j: int| 0 <= j < i ==> s[j] != 10u8,
            None => forall|j: int| 0 <= j < s.len() ==> s[j] != 10u8,
        },
{
    if exists|i: int| 0 <= i < s.len() && s[i] == 10u8 {
        let i = choose|i: int| 0 <= i < s.len() && s[i] == 10u8;
        lemma_earliest_newline(s, i);
    }
}

proof fn lemma_earliest_newline(s: Seq<u8>, i: int)
    requires
        0 <= i < s.len(),
        s[i] == 10u8,
    ensures
        exists|k: int| 0 <= k < s.len() && s[k] == 10u8 && forall|j: int| 0 <= j < k ==> s[j] != 10u8,
    decreases i,
{
    if exists|j: int| 0 <= j < i && s[j] == 10u8 {
        let j = choose|j: int| 0 <= j < i && s[j] == 10u8;
        lemma_earliest_newline(s, j);
    } else {
        assert(forall|j: int| 0 <= j < i ==> s[j] != 10u8);
    }
}

proof fn lemma_first_newline_is(s: Seq<u8>, i: int)
    requires
        0 <= i < s.len(),
        s[i] == 10u8,
        forall|j: int| 0 <= j < i ==> s[j] != 10u8,
    ensures
        first_newline(s) == Some(i),
{
    lemma_first_newline(s);
    let w = first_newline(s)->0;
    if w < i {
        assert(s[w] != 10u8);
    } else if w > i {
        assert(s[i] != 10u8);
    }
}

proof fn lemma_frame_read(frame: Seq<u8>, rest: Seq<u8>, sizes: Seq<nat>, limit: int)
    requires
        frame.len() <= limit,
    ensures
        ({
            let m = frame_len_in(rest);
            let r = read_frame_spec(frame, rest, sizes, limit);
            &&& frame.len() + m <= limit ==> r == (true, frame + rest.take(m), m)
            &&& frame.len() + m > limit ==> !r.0 && r.1.len() <= limit
        }),
    decreases rest.len(),
{
    let m = frame_len_in(rest);
    let k = offered(rest, if sizes.len() == 0 { 0 } else { sizes[0] });
    let available = rest.take(k);
    lemma_first_newline(rest);
    lemma_first_newline(available);
    if rest.len() == 0 {
        assert(frame + rest.take(0) =~= frame);
        return;
    }
    assert(0 < k <= rest.len());
    match first_newline(available) {
        Some(i) => {
            assert(available[i] == rest[i]);
            assert forall|j: int| 0 <= j < i implies rest[j] != 10u8 by {
                assert(available[j] == rest[j]);
            }
            lemma_first_newline_is(rest, i);
            assert(m == i + 1);
            assert(available.take(m) =~= rest.take(m));
        },
        None => {
            assert forall|j: int| 0 <= j < k implies rest[j] != 10u8 by {
                assert(available[j] == rest[j]);
            }
            let rest2 = rest.skip(k);
            let frame2 = frame + available;
            lemma_first_newline(rest2);
            assert(available.take(k) =~= available);
            match first_newline(rest) {
                Some(j) => {
                    assert(j >= k);
                    assert(rest2[j - k] == rest[j]);
                    assert forall|t: int| 0 <= t < j - k implies rest2[t] != 10u8 by {
                        assert(rest2[t] == rest[t + k]);
                    }
                    lemma_first_newline_is(rest2, j - k);
                },
                None => {
                    if first_newline(rest2) is Some {
                        let t = first_newline(rest2)->0;
                        assert(rest2[t] == rest[t + k]);
                    }
                },
            }
            assert(frame_len_in(rest2) == m - k);
            if frame.len() + k <= limit {
                lemma_frame_read(frame2, rest2, sizes.drop_first(), limit);
                assert(frame2 + rest2.take(m - k) =~= frame + rest.take(m));
            }
        },
    }
}

/// A frame read from the input `bytes`, starting empty, comes out the same
/// whatever pieces the reader offers them in (`sizes`): when the frame (up
/// to and including the first newline, or all the bytes) fits the limit, it
/// is read whole and exactly its bytes are consumed; when it does not, the
/// read fails with no more than `limit` bytes gathered. An input with no
/// bytes gives an empty frame.
pub proof fn lemma_frame_independent_of_chunking(bytes: Seq<u8>, sizes: Seq<nat>, limit: nat)
    ensures
        frame_len_in(bytes) <= limit ==>
            read_frame_spec(Seq::empty(), bytes, sizes, limit as int)
                == (true, bytes.take(frame_len_in(bytes)), frame_len_in(bytes)),
        frame_len_in(bytes) > limit ==> !read_frame_spec(Seq::empty(), bytes, sizes, limit as int).0
            && read_frame_spec(Seq::empty(), bytes, sizes, limit as int).1.len() <= limit,
{
    lemma_frame_read(Seq::empty(), bytes, sizes, limit as int);
    assert(Seq::<u8>::empty() + bytes.take(frame_len_in(bytes)) =~= bytes.take(frame_len_in(bytes)));
}

} // verus!
