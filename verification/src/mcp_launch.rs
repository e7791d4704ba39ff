//! How the MCP stdio client reaches its gateway, and the launch entry that
//! host adapters write for the persistent MCP server.

use vstd::prelude::*;
use vstd::string::StringExecFns;
use crate::errors::CliError;
use crate::json::{arr_view, jstr, lemma_arr_view, lemma_obj_view, obj_view, Json, JsonV};
use crate::text::str_is;

verus! {

/// Where the MCP client's gateway comes from.
pub enum McpGatewayMode {
    /// Inside a transparent run: authenticate and monitor the gateway the
    /// wrapper already owns at this URL.
    Borrowed { gateway_url: String },
    /// Acquire the shared persistent gateway.
    Managed,
}

pub open spec fn missing_url_message(url_env: Seq<char>, transparent_env: Seq<char>) -> Seq<char> {
    url_env + " is required when "@ + transparent_env + "=1"@
}

/// The gateway mode of an MCP session, from the transparent-run flag and
/// the gateway URL in the environment (each absent when unset or not
/// Unicode): a transparent run (flag `1`) borrows the wrapper's gateway and
/// needs its URL; any other value means the managed gateway.
pub fn mcp_gateway_mode(
    transparent_run: Option<String>,
    gateway_url: Option<String>,
    url_env: &str,
    transparent_env: &str,
) -> (r: Result<McpGatewayMode, CliError>)
    ensures
        match transparent_run {
            Some(flag) if flag@ == "1"@ => match gateway_url {
                Some(url) => r matches Ok(McpGatewayMode::Borrowed { gateway_url }) && gateway_url == url,
                None => r matches Err(CliError::Launch(m)) && m@ == missing_url_message(url_env@, transparent_env@),
            },
            _ => r matches Ok(McpGatewayMode::Managed),
        },
{
    let transparent = match &transparent_run {
        Some(flag) => str_is(flag.as_str(), "1"),
        None => false,
    };
    if !transparent {
        return Ok(McpGatewayMode::Managed);
    }
    match gateway_url {
        Some(url) => Ok(McpGatewayMode::Borrowed { gateway_url: url }),
        None => {
            let mut m = String::new();
            m.append(url_env);
            m.append(" is required when ");
            m.append(transparent_env);
            m.append("=1");
            assert(m@ =~= missing_url_message(url_env@, transparent_env@));
            Err(CliError::Launch(m))
        },
    }
}

/// The launch entry of the persistent MCP server.
pub open spec fn persistent_server_view(
    relay: Seq<char>,
    generation_file_env: Seq<char>,
    generation_file: Seq<char>,
    generation_token_env: Seq<char>,
    generation_token: Seq<char>,
    bind: Seq<char>,
) -> JsonV {
    JsonV::Obj(seq![
        ("command"@, JsonV::Str(relay)),
        ("args"@, JsonV::Arr(seq![JsonV::Str("mcp"@)])),
        ("env"@, JsonV::Obj(seq![
            ("NEMO_RELAY_GATEWAY_BIND"@, JsonV::Str(bind)),
            (generation_file_env, JsonV::Str(generation_file)),
            (generation_token_env, JsonV::Str(generation_token)),
        ])),
    ])
}

/// The host-independent launch entry of the persistent MCP server: the
/// relay executable run as `relay mcp`, with the persistent gateway bind
/// and the installation's generation fence in its environment. Host
/// adapters add only their own activation fields to it.
pub fn persistent_server(
    relay: &str,
    generation_file_env: &str,
    generation_file: &str,
    generation_token_env: &str,
    generation_token: &str,
    bind: &str,
) -> (j: Json)
    ensures
        j@ == persistent_server_view(relay@, generation_file_env@, generation_file@, generation_token_env@, generation_token@, bind@),
{
    let mut env_entries: Vec<(String, Json)> = Vec::new();
    env_entries.push(("NEMO_RELAY_GATEWAY_BIND".to_string(), jstr(bind)));
    env_entries.push((generation_file_env.to_string(), jstr(generation_file)));
    env_entries.push((generation_token_env.to_string(), jstr(generation_token)));
    let mut args_items: Vec<Json> = Vec::new();
    args_items.push(jstr("mcp"));
    proof {
        lemma_obj_view(env_entries, 3);
        lemma_arr_view(args_items, 1);
        assert(obj_view(env_entries, 3) =~= seq![
            ("NEMO_RELAY_GATEWAY_BIND"@, JsonV::Str(bind@)),
            (generation_file_env@, JsonV::Str(generation_file@)),
            (generation_token_env@, JsonV::Str(generation_token@)),
        ]);
        assert(arr_view(args_items, 1) =~= seq![JsonV::Str("mcp"@)]);
    }
    let mut entries: Vec<(String, Json)> = Vec::new();
    entries.push(("command".to_string(), jstr(relay)));
    entries.push(("args".to_string(), Json::Array(args_items)));
    entries.push(("env".to_string(), Json::Object(env_entries)));
    proof {
        lemma_obj_view(entries, 3);
        assert(obj_view(entries, 3) =~= persistent_server_view(relay@, generation_file_env@, generation_file@,
            generation_token_env@, generation_token@, bind@)->Obj_0);
    }
    let j = Json::Object(entries);
    j
}

/// Gateway settings given on the command line (paths and the address as
/// displayed).
#[derive(Clone, Debug, Default)]
pub struct GatewayOverrides {
    pub config: Option<String>,
    pub bind: Option<String>,
    pub openai_base_url: Option<String>,
    pub anthropic_base_url: Option<String>,
    pub plugin_config_path: Option<String>,
    pub ready_file: Option<String>,
    pub max_hook_payload_bytes: Option<usize>,
    pub max_passthrough_body_bytes: Option<usize>,
}

impl GatewayOverrides {
    /// Whether any gateway setting was given, which asks for the gateway
    /// daemon rather than a client command.
    pub fn requested_daemon_mode(&self) -> (daemon: bool)
        ensures
            daemon == (self.bind is Some || self.openai_base_url is Some || self.anthropic_base_url is Some
                || self.plugin_config_path is Some || self.ready_file is Some
                || self.max_hook_payload_bytes is Some || self.max_passthrough_body_bytes is Some
                || self.config is Some),
    {
        self.bind.is_some()
            || self.openai_base_url.is_some()
            || self.anthropic_base_url.is_some()
            || self.plugin_config_path.is_some()
            || self.ready_file.is_some()
            || self.max_hook_payload_bytes.is_some()
            || self.max_passthrough_body_bytes.is_some()
            || self.config.is_some()
    }
}

} // verus!
