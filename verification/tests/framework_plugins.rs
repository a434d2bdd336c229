use vtz::plugin::react::{parse_error_module, JsxRuntime, ReactPlugin};
use vtz::plugin::vertz::VertzPlugin;
use vtz::plugin::{FileChangeKind, HmrAction, InvalidationResult, PluginContext};

fn react() -> ReactPlugin {
    ReactPlugin::default()
}

fn change(path: &str, entry: bool, css: bool) -> InvalidationResult {
    InvalidationResult {
        changed_file: path.to_string(),
        change_kind: FileChangeKind::Modify,
        invalidated_files: vec![],
        is_entry_file: entry,
        is_css_only: css,
    }
}

#[test]
fn react_test_name() {
    assert_eq!(react().name(), "react");
}

#[test]
fn test_root_element_id() {
    assert_eq!(react().root_element_id(), "root");
}

#[test]
fn test_watch_extensions_include_jsx() {
    let exts = react().watch_extensions();
    assert!(exts.contains(&"jsx".to_string()));
    assert!(exts.contains(&"tsx".to_string()));
    assert!(exts.contains(&"js".to_string()));
}

#[test]
fn test_restart_triggers() {
    let triggers = react().restart_triggers();
    assert!(triggers.contains(&"package.json".to_string()));
    assert!(triggers.contains(&"tsconfig.json".to_string()));
}

#[test]
fn test_no_hmr_scripts_in_phase_2() {
    assert!(react().hmr_client_scripts().is_empty());
}

#[test]
fn test_default_jsx_runtime_is_automatic() {
    let plugin = ReactPlugin::default();
    assert_eq!(plugin.jsx_runtime, JsxRuntime::Automatic);
}

#[test]
fn react_does_not_support_fast_refresh_yet() {
    assert!(!react().supports_fast_refresh());
}

#[test]
fn react_parse_error_module_quotes_the_path() {
    assert_eq!(
        parse_error_module("/project/src/a\"b.tsx"),
        "console.error(\"[react] Parse error in \" + \"/project/src/a\\\"b.tsx\");"
    );
}

#[test]
fn vertz_test_name() {
    assert_eq!(VertzPlugin.name(), "vertz");
}

#[test]
fn test_supports_fast_refresh() {
    assert!(VertzPlugin.supports_fast_refresh());
}

#[test]
fn test_restart_triggers_include_vertz_config() {
    let triggers = VertzPlugin.restart_triggers();
    assert!(triggers.contains(&"vertz.config.ts".to_string()));
    assert!(triggers.contains(&"vertz.config.js".to_string()));
    assert!(triggers.contains(&"package.json".to_string()));
    assert!(triggers.contains(&".env".to_string()));
    assert!(triggers.contains(&".env.local".to_string()));
}

#[test]
fn vertz_test_default_hmr_strategy_entry_file() {
    match VertzPlugin.hmr_strategy(&change("/project/src/app.tsx", true, false)) {
        HmrAction::FullReload(_) => {}
        other => panic!("Expected FullReload, got {:?}", other),
    }
}

#[test]
fn vertz_test_default_hmr_strategy_css() {
    match VertzPlugin.hmr_strategy(&change("/project/src/styles.css", false, true)) {
        HmrAction::CssUpdate(path) => {
            assert_eq!(path, "/project/src/styles.css".to_string());
        }
        other => panic!("Expected CssUpdate, got {:?}", other),
    }
}

#[test]
fn test_mcp_tool_definitions() {
    let tools = VertzPlugin.mcp_tool_definitions();
    assert_eq!(tools.len(), 1);
    assert_eq!(tools[0].name, "api_spec");
    let schema: serde_json::Value = serde_json::from_str(&tools[0].input_schema).unwrap();
    assert_eq!(schema["type"], "object");
    assert_eq!(schema["properties"]["filter"]["type"], "string");
}

#[test]
fn test_execute_unknown_mcp_tool() {
    let ctx = PluginContext {
        root_dir: "/project".to_string(),
        src_dir: "/project/src".to_string(),
        port: 3000,
    };
    let result = VertzPlugin.execute_mcp_tool("unknown_tool", &serde_json::Value::Null, &ctx);
    assert!(result.is_err());
    assert_eq!(result.unwrap_err(), "Unknown Vertz plugin tool: unknown_tool");
}

#[test]
fn vertz_api_spec_tool_needs_the_isolate() {
    let ctx = PluginContext {
        root_dir: "/project".to_string(),
        src_dir: "/project/src".to_string(),
        port: 3000,
    };
    let result = VertzPlugin.execute_mcp_tool("api_spec", &serde_json::Value::Null, &ctx);
    assert_eq!(
        result.unwrap_err(),
        "api_spec requires isolate access — use the built-in handler for now"
    );
}

#[test]
fn test_env_public_prefixes_includes_vertz_and_vite() {
    let prefixes = VertzPlugin.env_public_prefixes();
    assert!(prefixes.contains(&"VERTZ_".to_string()));
    assert!(prefixes.contains(&"VITE_".to_string()));
}
