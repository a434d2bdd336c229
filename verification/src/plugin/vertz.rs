//! The Vertz framework plugin: its settings for the dev server and its MCP
//! tool. Compiling is done by the Vertz compiler outside this library.

use vstd::prelude::*;
use crate::plugin::react::strings;
use crate::plugin::{default_hmr_strategy, HmrAction, InvalidationResult, PluginContext, PluginMcpTool};
use crate::text::{owned, push_str, str_eq};

verus! {

/// The Vertz framework plugin.
pub struct VertzPlugin;

/// The description of the `api_spec` tool.
pub open spec fn api_spec_description() -> Seq<char> {
    "Returns the app's OpenAPI 3.1 specification including all entity CRUD routes, service endpoints, schemas, and access rules."@
}

/// The input schema of the `api_spec` tool: an object with an optional
/// string `filter`.
pub open spec fn api_spec_schema() -> Seq<char> {
    "{\"properties\":{\"filter\":{\"description\":\"Optional: filter by entity name, e.g. 'Task' or 'User'\",\"type\":\"string\"}},\"type\":\"object\"}"@
}

/// What a call of a tool by name answers: `api_spec` cannot run without the
/// isolate, and any other name is unknown.
pub open spec fn vertz_tool_error(name: Seq<char>) -> Seq<char> {
    if name == "api_spec"@ {
        "api_spec requires isolate access — use the built-in handler for now"@
    } else {
        "Unknown Vertz plugin tool: "@ + name
    }
}

impl VertzPlugin {
    /// `vertz`.
    pub fn name(&self) -> (r: &'static str)
        ensures
            r@ == "vertz"@,
    {
        "vertz"
    }

    /// Modules are wrapped for Fast Refresh.
    pub fn supports_fast_refresh(&self) -> (r: bool)
        ensures
            r,
    {
        true
    }

    /// The files whose change restarts the server.
    pub fn restart_triggers(&self) -> (r: Vec<String>)
        ensures
            r@.map_values(|s: String| s@) == seq![
                "vertz.config.ts"@,
                "vertz.config.js"@,
                "package.json"@,
                "bun.lock"@,
                "bun.lockb"@,
                ".env"@,
                ".env.local"@,
                ".env.development"@,
            ],
    {
        let items: [&str; 8] = [
            "vertz.config.ts",
            "vertz.config.js",
            "package.json",
            "bun.lock",
            "bun.lockb",
            ".env",
            ".env.local",
            ".env.development",
        ];
        let r = strings(&items);
        assert(items@.map_values(|s: &str| s@) =~= seq![
            "vertz.config.ts"@,
            "vertz.config.js"@,
            "package.json"@,
            "bun.lock"@,
            "bun.lockb"@,
            ".env"@,
            ".env.local"@,
            ".env.development"@,
        ]);
        r
    }

    /// The prefixes of environment variables exposed to the client.
    pub fn env_public_prefixes(&self) -> (r: Vec<String>)
        ensures
            r@.map_values(|s: String| s@) == seq!["VERTZ_"@, "VITE_"@],
    {
        let items: [&str; 2] = ["VERTZ_", "VITE_"];
        let r = strings(&items);
        assert(items@.map_values(|s: &str| s@) =~= seq!["VERTZ_"@, "VITE_"@]);
        r
    }

    /// The one tool: `api_spec`.
    pub fn mcp_tool_definitions(&self) -> (r: Vec<PluginMcpTool>)
        ensures
            r@.len() == 1,
            r@[0].name@ == "api_spec"@,
            r@[0].description@ == api_spec_description(),
            r@[0].input_schema@ == api_spec_schema(),
    {
        let tool = PluginMcpTool {
            name: owned("api_spec"),
            description: owned("Returns the app's OpenAPI 3.1 specification including all entity CRUD routes, service endpoints, schemas, and access rules."),
            input_schema: owned("{\"properties\":{\"filter\":{\"description\":\"Optional: filter by entity name, e.g. 'Task' or 'User'\",\"type\":\"string\"}},\"type\":\"object\"}"),
        };
        let mut r: Vec<PluginMcpTool> = Vec::new();
        r.push(tool);
        r
    }

    /// Runs a tool by name: no tool can run here, so the answer is the error.
    pub fn execute_mcp_tool(&self, name: &str, args: &serde_json::Value, ctx: &PluginContext) -> (r: Result<serde_json::Value, String>)
        ensures
            r matches Err(e) && e@ == vertz_tool_error(name@),
    {
        if str_eq(name, "api_spec") {
            Err(owned("api_spec requires isolate access — use the built-in handler for now"))
        } else {
            let mut e = owned("Unknown Vertz plugin tool: ");
            push_str(&mut e, name);
            Err(e)
        }
    }

    /// The default HMR decision.
    pub fn hmr_strategy(&self, result: &InvalidationResult) -> (a: HmrAction)
        ensures
            result.is_entry_file ==> (a matches HmrAction::FullReload(r) && r@ == "entry file changed"@),
            !result.is_entry_file && result.is_css_only ==> (a matches HmrAction::CssUpdate(f) && f@
                == result.changed_file@),
            !result.is_entry_file && !result.is_css_only ==> (a matches HmrAction::ModuleUpdate(fs)
                && fs@ == result.invalidated_files@),
    {
        default_hmr_strategy(result)
    }
}

} // verus!
