use vtz::plugin::{
    diagnostics_to_errors, hmr_action_to_message, hmr_message_at, path_to_url, ClientScript,
    CompileContext, CompileDiagnostic, CompileOutput, FileChangeKind, FrameworkPlugin, HmrAction,
    HmrMessage, InvalidationResult, PluginContext,
};

struct TestPlugin;

impl FrameworkPlugin for TestPlugin {
    fn name(&self) -> &str {
        "test"
    }

    fn compile(&self, source: &str, _ctx: &CompileContext) -> CompileOutput {
        CompileOutput {
            code: source.to_string(),
            css: None,
            source_map: None,
            diagnostics: vec![],
        }
    }

    fn hmr_client_scripts(&self) -> Vec<ClientScript> {
        vec![]
    }
}

fn ctx() -> CompileContext {
    CompileContext {
        file_path: "/project/src/app.tsx".to_string(),
        root_dir: "/project".to_string(),
        src_dir: "/project/src".to_string(),
        target: "dom".to_string(),
    }
}

fn invalidation(changed: &str, files: &[&str], entry: bool, css: bool) -> InvalidationResult {
    InvalidationResult {
        changed_file: changed.to_string(),
        change_kind: FileChangeKind::Modify,
        invalidated_files: files.iter().map(|s| s.to_string()).collect(),
        is_entry_file: entry,
        is_css_only: css,
    }
}

#[test]
fn test_plugin_name() {
    assert_eq!(TestPlugin.name(), "test");
}

#[test]
fn test_default_root_element_id() {
    assert_eq!(TestPlugin.root_element_id(), "app");
}

#[test]
fn test_default_watch_extensions() {
    let exts = TestPlugin.watch_extensions();
    assert!(exts.contains(&"ts".to_string()));
    assert!(exts.contains(&"tsx".to_string()));
    assert!(exts.contains(&"css".to_string()));
}

#[test]
fn test_default_restart_triggers() {
    let triggers = TestPlugin.restart_triggers();
    assert!(triggers.contains(&"package.json".to_string()));
    assert!(triggers.contains(&".env".to_string()));
}

#[test]
fn test_default_supports_fast_refresh() {
    assert!(!TestPlugin.supports_fast_refresh());
}

#[test]
fn test_default_module_id() {
    assert_eq!(TestPlugin.module_id("/project/src/app.tsx", "/project"), "/src/app.tsx");
}

#[test]
fn default_module_id_outside_root_is_the_path() {
    assert_eq!(TestPlugin.module_id("/other/app.tsx", "/project"), "/other/app.tsx");
}

#[test]
fn test_default_resolve_import() {
    assert!(TestPlugin.resolve_import("react").is_none());
}

#[test]
fn mod_test_default_hmr_strategy_entry_file() {
    let result = invalidation("/project/src/app.tsx", &[], true, false);
    match TestPlugin.hmr_strategy(&result) {
        HmrAction::FullReload(reason) => assert_eq!(reason, "entry file changed"),
        _ => panic!("Expected FullReload"),
    }
}

#[test]
fn mod_test_default_hmr_strategy_css() {
    let result = invalidation("/project/src/styles.css", &[], false, true);
    match TestPlugin.hmr_strategy(&result) {
        HmrAction::CssUpdate(path) => assert_eq!(path, "/project/src/styles.css"),
        _ => panic!("Expected CssUpdate"),
    }
}

#[test]
fn test_default_hmr_strategy_module_update() {
    let result = invalidation(
        "/project/src/Button.tsx",
        &["/project/src/Button.tsx", "/project/src/app.tsx"],
        false,
        false,
    );
    match TestPlugin.hmr_strategy(&result) {
        HmrAction::ModuleUpdate(files) => assert_eq!(files.len(), 2),
        _ => panic!("Expected ModuleUpdate"),
    }
}

#[test]
fn test_default_post_process_is_identity() {
    assert_eq!(TestPlugin.post_process("unchanged", &ctx()), "unchanged");
}

#[test]
fn test_default_mcp_tools_empty() {
    assert!(TestPlugin.mcp_tool_definitions().is_empty());
}

#[test]
fn test_default_execute_mcp_tool_returns_error() {
    let pctx = PluginContext {
        root_dir: "/project".to_string(),
        src_dir: "/project/src".to_string(),
        port: 3000,
    };
    let args = serde_json::Value::Object(serde_json::Map::new());
    let result = TestPlugin.execute_mcp_tool("unknown", &args, &pctx);
    assert!(result.is_err());
    assert_eq!(result.unwrap_err(), "Unknown plugin tool: unknown");
}

#[test]
fn test_compile_passthrough() {
    let output = TestPlugin.compile("const x = 1;", &ctx());
    assert_eq!(output.code, "const x = 1;");
    assert!(output.css.is_none());
    assert!(output.diagnostics.is_empty());
}

#[test]
fn test_hmr_action_to_message_full_reload() {
    let action = HmrAction::FullReload("test reason".into());
    match hmr_action_to_message(&action, "/project") {
        HmrMessage::FullReload { reason } => assert_eq!(reason, "test reason"),
        _ => panic!("Expected FullReload"),
    }
}

#[test]
fn test_hmr_action_to_message_module_update() {
    let action = HmrAction::ModuleUpdate(vec![
        "/project/src/Button.tsx".to_string(),
        "/project/src/app.tsx".to_string(),
    ]);
    match hmr_action_to_message(&action, "/project") {
        HmrMessage::Update { modules, timestamp } => {
            assert_eq!(modules.len(), 2);
            assert!(modules.contains(&"/src/Button.tsx".to_string()));
            assert!(modules.contains(&"/src/app.tsx".to_string()));
            assert!(timestamp > 0);
        }
        _ => panic!("Expected Update"),
    }
}

#[test]
fn test_hmr_action_to_message_css_update() {
    let action = HmrAction::CssUpdate("/project/src/styles.css".to_string());
    match hmr_action_to_message(&action, "/project") {
        HmrMessage::CssUpdate { file, timestamp } => {
            assert_eq!(file, "/src/styles.css");
            assert!(timestamp > 0);
        }
        _ => panic!("Expected CssUpdate"),
    }
}

#[test]
fn test_hmr_action_to_message_handled_returns_connected_noop() {
    let msg = hmr_action_to_message(&HmrAction::Handled, "/project");
    assert!(matches!(msg, HmrMessage::Connected));
}

#[test]
fn hmr_message_at_uses_the_given_time() {
    let action = HmrAction::CssUpdate("/project/a.css".to_string());
    match hmr_message_at(&action, "/project", 42) {
        HmrMessage::CssUpdate { file, timestamp } => {
            assert_eq!(file, "/a.css");
            assert_eq!(timestamp, 42);
        }
        _ => panic!("Expected CssUpdate"),
    }
}

#[test]
fn test_diagnostics_to_errors_filters_warnings() {
    let diagnostics = vec![
        CompileDiagnostic {
            message: "error msg".into(),
            line: Some(1),
            column: Some(5),
            is_warning: false,
        },
        CompileDiagnostic {
            message: "warning msg".into(),
            line: Some(2),
            column: Some(10),
            is_warning: true,
        },
    ];
    let errors = diagnostics_to_errors(&diagnostics);
    assert_eq!(errors.len(), 1);
    assert_eq!(errors[0].message, "error msg");
    assert_eq!(errors[0].line, Some(1));
    assert_eq!(errors[0].column, Some(5));
}

#[test]
fn test_path_to_url_relative() {
    assert_eq!(path_to_url("/project/src/Button.tsx", "/project"), "/src/Button.tsx");
}

#[test]
fn test_path_to_url_outside_root() {
    assert_eq!(path_to_url("/other/file.tsx", "/project"), "//other/file.tsx");
}
