//! The React framework plugin: its settings for the dev server. Compiling
//! (TypeScript stripping and the JSX transform) is done by the oxc
//! toolchain outside this library.

use vstd::prelude::*;
use crate::json::json_quote;
use crate::json::json_quoted;
use crate::plugin::{default_hmr_strategy, ClientScript, HmrAction, InvalidationResult};
use crate::text::{owned, push_str};

verus! {

/// Which JSX runtime the React transform targets.
#[derive(Debug, Clone, Copy, PartialEq, Eq, Structural)]
pub enum JsxRuntime {
    /// `import { jsx } from 'react/jsx-runtime'` (React 17+, the default).
    Automatic,
    /// `React.createElement` (classic, needs `import React`).
    Classic,
}

/// The React framework plugin.
pub struct ReactPlugin {
    pub jsx_runtime: JsxRuntime,
}

impl Default for ReactPlugin {
    /// The automatic JSX runtime.
    fn default() -> (r: Self)
        ensures
            r.jsx_runtime == JsxRuntime::Automatic,
    {
        ReactPlugin { jsx_runtime: JsxRuntime::Automatic }
    }
}

pub(crate) fn strings(items: &[&str]) -> (r: Vec<String>)
    ensures
        r@.map_values(|s: String| s@) == items@.map_values(|s: &str| s@),
{
    let mut r: Vec<String> = Vec::new();
    let mut i: usize = 0;
    while i < items.len()
        invariant
            i <= items.len(),
            r@.map_values(|s: String| s@) =~= items@.take(i as int).map_values(|s: &str| s@),
        decreases items.len() - i,
    {
        let ghost before = r@.map_values(|s: String| s@);
        r.push(owned(items[i]));
        assert(r@.map_values(|s: String| s@) =~= before.push(items@[i as int]@));
        assert(items@.take(i + 1) =~= items@.take(i as int).push(items@[i as int]));
        i += 1;
    }
    assert(items@.take(items.len() as int) =~= items@);
    r
}

impl ReactPlugin {
    /// `react`.
    pub fn name(&self) -> (r: &'static str)
        ensures
            r@ == "react"@,
    {
        "react"
    }

    /// No client scripts yet.
    pub fn hmr_client_scripts(&self) -> (r: Vec<ClientScript>)
        ensures
            r@.len() == 0,
    {
        Vec::new()
    }

    /// The root element is `#root`.
    pub fn root_element_id(&self) -> (r: &'static str)
        ensures
            r@ == "root"@,
    {
        "root"
    }

    /// ts, tsx, js, jsx and css files are watched.
    pub fn watch_extensions(&self) -> (r: Vec<String>)
        ensures
            r@.map_values(|s: String| s@) == seq!["ts"@, "tsx"@, "js"@, "jsx"@, "css"@],
    {
        let items: [&str; 5] = ["ts", "tsx", "js", "jsx", "css"];
        let r = strings(&items);
        assert(items@.map_values(|s: &str| s@) =~= seq!["ts"@, "tsx"@, "js"@, "jsx"@, "css"@]);
        r
    }

    /// The files whose change restarts the server.
    pub fn restart_triggers(&self) -> (r: Vec<String>)
        ensures
            r@.map_values(|s: String| s@) == seq![
                "package.json"@,
                "tsconfig.json"@,
                "bun.lock"@,
                "bun.lockb"@,
                ".env"@,
                ".env.local"@,
            ],
    {
        let items: [&str; 6] = ["package.json", "tsconfig.json", "bun.lock", "bun.lockb", ".env", ".env.local"];
        let r = strings(&items);
        assert(items@.map_values(|s: &str| s@) =~= seq![
            "package.json"@,
            "tsconfig.json"@,
            "bun.lock"@,
            "bun.lockb"@,
            ".env"@,
            ".env.local"@,
        ]);
        r
    }

    /// No Fast Refresh yet.
    pub fn supports_fast_refresh(&self) -> (r: bool)
        ensures
            !r,
    {
        false
    }

    /// The default HMR decision.
    pub fn hmr_strategy(&self, result: &InvalidationResult) -> (a: HmrAction)
        ensures
            result.is_entry_file ==> (a matches HmrAction::FullReload(r) && r@ == "entry file changed"@),
            !result.is_entry_file && result.is_css_only ==> (a matches HmrAction::CssUpdate(f) && f@
                == result.changed_file@),
            !result.is_entry_file && !result.is_css_only ==> (a matches HmrAction::ModuleUpdate(fs)
                && fs@ == result.invalidated_files@),
    {
        default_hmr_strategy(result)
    }
}

/// The module that stands in for a file that failed to parse:
/// `console.error("[react] Parse error in " + "<path>");`, the path a JSON
/// string literal.
pub open spec fn parse_error_module_spec(file_path: Seq<char>) -> Seq<char> {
    "console.error(\"[react] Parse error in \" + "@ + json_quote(file_path) + ");"@
}

/// The module that stands in for a file that failed to parse.
pub fn parse_error_module(file_path: &str) -> (r: String)
    ensures
        r@ == parse_error_module_spec(file_path@),
{
    let mut r = owned("console.error(\"[react] Parse error in \" + ");
    let q = json_quoted(file_path);
    push_str(&mut r, q.as_str());
    push_str(&mut r, ");");
    r
}

} // verus!
