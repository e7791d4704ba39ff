//! The documents installed for agent host integrations: the Codex
//! marketplace and plugin manifests, and the MCP server entries built from
//! the persistent server's launch entry.

use vstd::prelude::*;
use crate::hooks::entries_set;
use crate::json::{arr_view, jstr, lemma_arr_view, lemma_obj_view, obj_view, Json, JsonNumber, JsonV};
use crate::tool_key::set_entry;

verus! {

pub open spec fn s(t: Seq<char>) -> JsonV {
    JsonV::Str(t)
}

fn object(entries: Vec<(String, Json)>) -> (j: Json)
    ensures
        j@ == JsonV::Obj(obj_view(entries, entries@.len() as int)),
{
    Json::Object(entries)
}

fn member(key: &str, value: Json) -> (e: (String, Json))
    ensures
        e.0@ == key@,
        e.1 == value,
{
    (key.to_string(), value)
}

/// The document `codex_marketplace_manifest` builds.
pub open spec fn codex_marketplace_view(marketplace: Seq<char>, plugin: Seq<char>) -> JsonV {
    JsonV::Obj(seq![
("name"@, s(marketplace)),
("interface"@, JsonV::Obj(seq![
("displayName"@, s("NeMo Relay Local"@)),
])),
("plugins"@, JsonV::Arr(seq![
JsonV::Obj(seq![
("name"@, s(plugin)),
("source"@, JsonV::Obj(seq![
("source"@, s("local"@)),
("path"@, s("./plugins/nemo-relay-plugin"@)),
])),
("policy"@, JsonV::Obj(seq![
("installation"@, s("AVAILABLE"@)),
("authentication"@, s("ON_INSTALL"@)),
])),
("category"@, s("Coding"@)),
]),
])),
])
}

/// The Codex marketplace manifest listing the local plugin.
pub fn codex_marketplace_manifest(marketplace: &str, plugin: &str) -> (j: Json)
    ensures
        j@ == codex_marketplace_view(marketplace@, plugin@),
{
    let mut o4: Vec<(String, Json)> = Vec::new();
    o4.push(member("displayName", jstr("NeMo Relay Local")));
    proof { lemma_obj_view(o4, 1); }
    assert(obj_view(o4, 1) =~= seq![("displayName"@, s("NeMo Relay Local"@))]);
    let ghost g4 = JsonV::Obj(obj_view(o4, 1));
    let mut o7: Vec<(String, Json)> = Vec::new();
    o7.push(member("source", jstr("local")));
    o7.push(member("path", jstr("./plugins/nemo-relay-plugin")));
    proof { lemma_obj_view(o7, 2); }
    assert(obj_view(o7, 2) =~= seq![("source"@, s("local"@)), ("path"@, s("./plugins/nemo-relay-plugin"@))]);
    let ghost g7 = JsonV::Obj(obj_view(o7, 2));
    let mut o8: Vec<(String, Json)> = Vec::new();
    o8.push(member("installation", jstr("AVAILABLE")));
    o8.push(member("authentication", jstr("ON_INSTALL")));
    proof { lemma_obj_view(o8, 2); }
    assert(obj_view(o8, 2) =~= seq![("installation"@, s("AVAILABLE"@)), ("authentication"@, s("ON_INSTALL"@))]);
    let ghost g8 = JsonV::Obj(obj_view(o8, 2));
    let mut o6: Vec<(String, Json)> = Vec::new();
    o6.push(member("name", jstr(plugin)));
    o6.push(member("source", object(o7)));
    o6.push(member("policy", object(o8)));
    o6.push(member("category", jstr("Coding")));
    proof { lemma_obj_view(o6, 4); }
    assert(obj_view(o6, 4) =~= seq![("name"@, s(plugin@)), ("source"@, g7), ("policy"@, g8), ("category"@, s("Coding"@))]);
    let ghost g6 = JsonV::Obj(obj_view(o6, 4));
    let mut a5: Vec<Json> = Vec::new();
    a5.push(object(o6));
    proof { lemma_arr_view(a5, 1); }
    assert(arr_view(a5, 1) =~= seq![g6]);
    let ghost g5 = JsonV::Arr(arr_view(a5, 1));
    let mut o3: Vec<(String, Json)> = Vec::new();
    o3.push(member("name", jstr(marketplace)));
    o3.push(member("interface", object(o4)));
    o3.push(member("plugins", Json::Array(a5)));
    proof { lemma_obj_view(o3, 3); }
    assert(obj_view(o3, 3) =~= seq![("name"@, s(marketplace@)), ("interface"@, g4), ("plugins"@, g5)]);
    let ghost g3 = JsonV::Obj(obj_view(o3, 3));
    object(o3)
}

/// The document `codex_plugin_manifest` builds.
pub open spec fn codex_plugin_view(plugin: Seq<char>, version: Seq<char>) -> JsonV {
    JsonV::Obj(seq![
("name"@, s(plugin)),
("version"@, s(version)),
("description"@, s("Native Relay gateway lifecycle and Codex hooks for complete local observability."@)),
("author"@, JsonV::Obj(seq![
("name"@, s("NVIDIA Corporation and Affiliates"@)),
("url"@, s("https://github.com/NVIDIA/NeMo-Relay"@)),
])),
("homepage"@, s("https://github.com/NVIDIA/NeMo-Relay"@)),
("repository"@, s("https://github.com/NVIDIA/NeMo-Relay"@)),
("license"@, s("Apache-2.0"@)),
("keywords"@, JsonV::Arr(seq![
s("nemo-relay"@),
s("codex"@),
s("hooks"@),
s("observability"@),
])),
("mcpServers"@, s("./.mcp.json"@)),
("interface"@, JsonV::Obj(seq![
("displayName"@, s("NeMo Relay Plugin"@)),
("shortDescription"@, s("Run the native Relay gateway and capture Codex lifecycle events."@)),
("longDescription"@, s("Starts the native nemo-relay gateway through a required lifecycle-bound MCP server, routes model traffic through it, and installs command hooks that preserve canonical Codex lifecycle payloads."@)),
("developerName"@, s("NVIDIA"@)),
("category"@, s("Coding"@)),
("capabilities"@, JsonV::Arr(seq![
s("Read"@),
])),
("defaultPrompt"@, JsonV::Arr(seq![
s("Capture this Codex session with NeMo Relay observability."@),
])),
("websiteURL"@, s("https://github.com/NVIDIA/NeMo-Relay"@)),
("brandColor"@, s("#76B900"@)),
])),
])
}

/// The Codex plugin manifest of `plugin` at the relay's `version`.
pub fn codex_plugin_manifest(plugin: &str, version: &str) -> (j: Json)
    ensures
        j@ == codex_plugin_view(plugin@, version@),
{
    let mut o10: Vec<(String, Json)> = Vec::new();
    o10.push(member("name", jstr("NVIDIA Corporation and Affiliates")));
    o10.push(member("url", jstr("https://github.com/NVIDIA/NeMo-Relay")));
    proof { lemma_obj_view(o10, 2); }
    assert(obj_view(o10, 2) =~= seq![("name"@, s("NVIDIA Corporation and Affiliates"@)), ("url"@, s("https://github.com/NVIDIA/NeMo-Relay"@))]);
    let ghost g10 = JsonV::Obj(obj_view(o10, 2));
    let mut a11: Vec<Json> = Vec::new();
    a11.push(jstr("nemo-relay"));
    a11.push(jstr("codex"));
    a11.push(jstr("hooks"));
    a11.push(jstr("observability"));
    proof { lemma_arr_view(a11, 4); }
    assert(arr_view(a11, 4) =~= seq![s("nemo-relay"@), s("codex"@), s("hooks"@), s("observability"@)]);
    let ghost g11 = JsonV::Arr(arr_view(a11, 4));
    let mut a13: Vec<Json> = Vec::new();
    a13.push(jstr("Read"));
    proof { lemma_arr_view(a13, 1); }
    assert(arr_view(a13, 1) =~= seq![s("Read"@)]);
    let ghost g13 = JsonV::Arr(arr_view(a13, 1));
    let mut a14: Vec<Json> = Vec::new();
    a14.push(jstr("Capture this Codex session with NeMo Relay observability."));
    proof { lemma_arr_view(a14, 1); }
    assert(arr_view(a14, 1) =~= seq![s("Capture this Codex session with NeMo Relay observability."@)]);
    let ghost g14 = JsonV::Arr(arr_view(a14, 1));
    let mut o12: Vec<(String, Json)> = Vec::new();
    o12.push(member("displayName", jstr("NeMo Relay Plugin")));
    o12.push(member("shortDescription", jstr("Run the native Relay gateway and capture Codex lifecycle events.")));
    o12.push(member("longDescription", jstr("Starts the native nemo-relay gateway through a required lifecycle-bound MCP server, routes model traffic through it, and installs command hooks that preserve canonical Codex lifecycle payloads.")));
    o12.push(member("developerName", jstr("NVIDIA")));
    o12.push(member("category", jstr("Coding")));
    o12.push(member("capabilities", Json::Array(a13)));
    o12.push(member("defaultPrompt", Json::Array(a14)));
    o12.push(member("websiteURL", jstr("https://github.com/NVIDIA/NeMo-Relay")));
    o12.push(member("brandColor", jstr("#76B900")));
    proof { lemma_obj_view(o12, 9); }
    assert(obj_view(o12, 9) =~= seq![("displayName"@, s("NeMo Relay Plugin"@)), ("shortDescription"@, s("Run the native Relay gateway and capture Codex lifecycle events."@)), ("longDescription"@, s("Starts the native nemo-relay gateway through a required lifecycle-bound MCP server, routes model traffic through it, and installs command hooks that preserve canonical Codex lifecycle payloads."@)), ("developerName"@, s("NVIDIA"@)), ("category"@, s("Coding"@)), ("capabilities"@, g13), ("defaultPrompt"@, g14), ("websiteURL"@, s("https://github.com/NVIDIA/NeMo-Relay"@)), ("brandColor"@, s("#76B900"@))]);
    let ghost g12 = JsonV::Obj(obj_view(o12, 9));
    let mut o9: Vec<(String, Json)> = Vec::new();
    o9.push(member("name", jstr(plugin)));
    o9.push(member("version", jstr(version)));
    o9.push(member("description", jstr("Native Relay gateway lifecycle and Codex hooks for complete local observability.")));
    o9.push(member("author", object(o10)));
    o9.push(member("homepage", jstr("https://github.com/NVIDIA/NeMo-Relay")));
    o9.push(member("repository", jstr("https://github.com/NVIDIA/NeMo-Relay")));
    o9.push(member("license", jstr("Apache-2.0")));
    o9.push(member("keywords", Json::Array(a11)));
    o9.push(member("mcpServers", jstr("./.mcp.json")));
    o9.push(member("interface", object(o12)));
    proof { lemma_obj_view(o9, 10); }
    assert(obj_view(o9, 10) =~= seq![("name"@, s(plugin@)), ("version"@, s(version@)), ("description"@, s("Native Relay gateway lifecycle and Codex hooks for complete local observability."@)), ("author"@, g10), ("homepage"@, s("https://github.com/NVIDIA/NeMo-Relay"@)), ("repository"@, s("https://github.com/NVIDIA/NeMo-Relay"@)), ("license"@, s("Apache-2.0"@)), ("keywords"@, g11), ("mcpServers"@, s("./.mcp.json"@)), ("interface"@, g12)]);
    let ghost g9 = JsonV::Obj(obj_view(o9, 10));
    object(o9)
}

/// The name hosts know the persistent MCP server by.
pub const SERVER_NAME: &'static str = "nemo-relay";

/// The MCP configuration of a host that lists servers under `mcpServers`:
/// the persistent server's launch entry (an object), always loaded, under
/// the server name.
pub fn always_loaded_mcp_config(server: Json) -> (j: Json)
    requires
        server is Object,
    ensures
        j@ == JsonV::Obj(seq![("mcpServers"@, JsonV::Obj(seq![
            ("nemo-relay"@, JsonV::Obj(entries_set(server@->Obj_0, "alwaysLoad"@, JsonV::Bool(true)))),
        ]))]),
{
    let mut fields = match server {
        Json::Object(fields) => fields,
        _ => Vec::new(),
    };
    set_entry(&mut fields, "alwaysLoad".to_string(), Json::Bool(true));
    let ghost fv = JsonV::Obj(obj_view(fields, fields@.len() as int));
    let mut servers: Vec<(String, Json)> = Vec::new();
    servers.push(member(SERVER_NAME, object(fields)));
    proof {
        lemma_obj_view(servers, 1);
        reveal_strlit("nemo-relay");
    }
    assert(obj_view(servers, 1) =~= seq![("nemo-relay"@, fv)]);
    let ghost sv = JsonV::Obj(obj_view(servers, 1));
    let mut doc: Vec<(String, Json)> = Vec::new();
    doc.push(member("mcpServers", object(servers)));
    proof { lemma_obj_view(doc, 1); }
    assert(obj_view(doc, 1) =~= seq![("mcpServers"@, sv)]);
    object(doc)
}

/// The members of the Codex MCP server entry: the launch entry's, with
/// the forwarded environment variable names, marked required, with a
/// twenty-second startup timeout.
pub open spec fn codex_server_members(server: Seq<(Seq<char>, JsonV)>, env_vars: Seq<Seq<char>>) -> Seq<(Seq<char>, JsonV)> {
    entries_set(
        entries_set(
            entries_set(server, "env_vars"@, JsonV::Arr(env_vars.map_values(|v: Seq<char>| JsonV::Str(v)))),
            "required"@,
            JsonV::Bool(true),
        ),
        "startup_timeout_sec"@,
        JsonV::Num(JsonNumber::PosInt(20)),
    )
}

/// The Codex MCP configuration: the persistent server's launch entry (an
/// object) completed by `codex_server_members`, under the server name.
pub fn codex_mcp_config(server: Json, env_vars: &Vec<String>) -> (j: Json)
    requires
        server is Object,
    ensures
        j@ == JsonV::Obj(seq![
            ("nemo-relay"@, JsonV::Obj(codex_server_members(server@->Obj_0, env_vars@.map_values(|v: String| v@)))),
        ]),
{
    let mut fields = match server {
        Json::Object(fields) => fields,
        _ => Vec::new(),
    };
    let mut names: Vec<Json> = Vec::new();
    let mut i: usize = 0;
    while i < env_vars.len()
        invariant
            i <= env_vars@.len(),
            names@.len() == i,
            forall|t: int| 0 <= t < i ==> #[trigger] names@[t]@ == JsonV::Str(env_vars@[t]@),
        decreases env_vars.len() - i,
    {
        names.push(jstr(env_vars[i].as_str()));
        i = i + 1;
    }
    proof {
        lemma_arr_view(names, names@.len() as int);
        let expected = env_vars@.map_values(|v: String| v@).map_values(|v: Seq<char>| JsonV::Str(v));
        assert forall|t: int| 0 <= t < names@.len() implies #[trigger] arr_view(names, names@.len() as int)[t] == expected[t] by {
            assert(names@[t]@ == JsonV::Str(env_vars@[t]@));
        }
        assert(arr_view(names, names@.len() as int) =~= expected);
    }
    set_entry(&mut fields, "env_vars".to_string(), Json::Array(names));
    set_entry(&mut fields, "required".to_string(), Json::Bool(true));
    set_entry(&mut fields, "startup_timeout_sec".to_string(), Json::Number(JsonNumber::PosInt(20)));
    let ghost fv = JsonV::Obj(obj_view(fields, fields@.len() as int));
    let mut doc: Vec<(String, Json)> = Vec::new();
    doc.push(member(SERVER_NAME, object(fields)));
    proof {
        lemma_obj_view(doc, 1);
        reveal_strlit("nemo-relay");
    }
    assert(obj_view(doc, 1) =~= seq![("nemo-relay"@, fv)]);
    object(doc)
}

} // verus!
