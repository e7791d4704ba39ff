//! Verified decision logic of the NeMo Relay command-line gateway and its
//! adaptive response cache.

pub mod agent_assets;
pub mod banner;
pub mod bounded;
pub mod bootstrap_state;
pub mod cache_flow;
pub mod canonical;
pub mod canonical_order;
pub mod codex_hooks;
pub mod cache_shapes;
pub mod crypto;
pub mod detached_spawn;
pub mod decimal;
pub mod environment;
pub mod errors;
pub mod gateway_lease;
pub mod gateway_stop;
pub mod hooks;
pub mod json;
pub mod launch;
pub mod logging_config;
pub mod marks;
pub mod mcp_launch;
pub mod mcp_protocol;
pub mod operation_lock;
pub mod plugin_policy;
pub mod plugin_render;
pub mod plugin_trust;
pub mod sampling;
pub mod secret_restoration;
pub mod secrets;
pub mod spawn_environment;
pub mod text;
pub mod thin;
pub mod tool_cache;
pub mod tool_key;
pub mod tool_policy;
pub mod wildcard;
