//! Framework plugins for the dev server: what a plugin provides, the default
//! behaviours, and how HMR decisions become messages for the browser.

pub mod react;
pub mod vertz;

use vstd::prelude::*;
use crate::pm::listing::opt_view;
use crate::text::{owned, push_str, replace_char, replace_char_str};

verus! {

/// `serde_json::Value`, carried through as an opaque value.
#[verifier::external_type_specification]
#[verifier::external_body]
pub struct ExJsonValue(serde_json::Value);

/// Context passed to compile() — everything the plugin needs to know about the file.
pub struct CompileContext {
    pub file_path: String,
    pub root_dir: String,
    pub src_dir: String,
    /// "dom" for browser, "ssr" for server rendering.
    pub target: String,
}

/// Result of plugin compilation.
pub struct CompileOutput {
    /// Compiled JavaScript code.
    pub code: String,
    /// Extracted CSS, if any.
    pub css: Option<String>,
    /// Source map JSON, if available.
    pub source_map: Option<String>,
    /// Compilation diagnostics (errors and warnings).
    pub diagnostics: Vec<CompileDiagnostic>,
}

/// A diagnostic produced during compilation.
#[derive(Debug, Clone)]
pub struct CompileDiagnostic {
    pub message: String,
    pub line: Option<u32>,
    pub column: Option<u32>,
    /// Whether this is a warning (true) or error (false).
    pub is_warning: bool,
}

/// A compile error as the dev server reports it.
#[derive(Debug, Clone)]
pub struct CompileError {
    pub message: String,
    pub line: Option<u32>,
    pub column: Option<u32>,
}

/// What the HMR system should do in response to a file change.
#[derive(Debug, Clone)]
pub enum HmrAction {
    /// Full page reload.
    FullReload(String),
    /// Hot-update specific modules.
    ModuleUpdate(Vec<String>),
    /// Update CSS without reload.
    CssUpdate(String),
    /// Plugin handled it — runtime should do nothing.
    Handled,
}

/// How a watched file changed.
#[derive(Debug, Clone, Copy, PartialEq, Eq)]
pub enum FileChangeKind {
    Create,
    Modify,
    Remove,
}

/// What a file change invalidated.
pub struct InvalidationResult {
    pub changed_file: String,
    pub change_kind: FileChangeKind,
    pub invalidated_files: Vec<String>,
    pub is_entry_file: bool,
    pub is_css_only: bool,
}

/// A message of the HMR WebSocket protocol.
#[derive(Debug, Clone)]
pub enum HmrMessage {
    Connected,
    Update { modules: Vec<String>, timestamp: u64 },
    FullReload { reason: String },
    CssUpdate { file: String, timestamp: u64 },
}

/// A client-side script to inject into the HTML shell.
pub struct ClientScript {
    /// Script content (inline).
    pub content: String,
    /// Whether this is a module script (type="module").
    pub is_module: bool,
}

/// An MCP tool contributed by a plugin.
pub struct PluginMcpTool {
    /// Tool name (will be prefixed with plugin name).
    pub name: String,
    /// Human-readable description for LLM tool discovery.
    pub description: String,
    /// JSON Schema for the tool's input parameters, as JSON text.
    pub input_schema: String,
}

/// Context passed to plugin MCP tool execution.
pub struct PluginContext {
    pub root_dir: String,
    pub src_dir: String,
    pub port: u16,
}

/// One plain path component: not empty, without `/`, `\\` or `:`, and
/// neither `.` nor `..`.
pub open spec fn plain_part(s: Seq<char>) -> bool {
    &&& s.len() > 0
    &&& forall|i: int| 0 <= i < s.len() ==> s[i] != '/' && s[i] != '\\' && s[i] != ':'
    &&& s != seq!['.']
    &&& s != seq!['.', '.']
}

/// A relative path of plain components joined by single `/`s.
pub open spec fn plain_rel(s: Seq<char>) -> bool
    decreases s.len(),
{
    plain_part(s) || exists|k: int|
        0 < k < s.len() - 1 && s[k] == '/' && plain_part(#[trigger] s.take(k)) && plain_rel(s.skip(k + 1))
}

/// A root of plain components: relative, or absolute with a single leading
/// `/` (no drive, no UNC or verbatim prefix, no backslash).
pub open spec fn plain_root(r: Seq<char>) -> bool {
    plain_rel(r) || (r.len() > 1 && r[0] == '/' && plain_rel(r.skip(1)))
}

/// `path` is `root`, a `/` and `rest`, all three plain.
pub open spec fn under_root(path: Seq<char>, root: Seq<char>, rest: Seq<char>) -> bool {
    plain_root(root) && plain_rel(rest) && path == root + seq!['/'] + rest
}

/// What holds of `Path::strip_prefix` on every platform, for a result
/// `rel` (the rest of `path` after `root`, or `None`): a path stripped of
/// itself leaves nothing, and a plain path under a plain root leaves its
/// plain rest. Other roots and paths split by the platform's own rules.
pub open spec fn strip_ok(path: Seq<char>, root: Seq<char>, rel: Option<Seq<char>>) -> bool {
    &&& path == root ==> rel == Some(Seq::<char>::empty())
    &&& forall|rest: Seq<char>| #[trigger] under_root(path, root, rest) ==> rel == Some(rest)
}

/// `Path::new(path).strip_prefix(root)`, the rest as text
/// (`to_string_lossy`, lossless for text). How paths are split into
/// components depends on the platform (`\` and drive prefixes are
/// separators and components on Windows only), so only what holds on every
/// platform is stated: a path stripped of itself gives `""`, and a plain
/// `root/rest` (components split by `/` alone on both) gives `rest`, the
/// remaining components as written.
#[verifier::external_body]
fn strip_path_prefix(path: &str, root: &str) -> (r: Option<String>)
    ensures
        strip_ok(path@, root@, opt_view(r)),
{
    match std::path::Path::new(path).strip_prefix(root) {
        Ok(p) => Some(p.to_string_lossy().into_owned()),
        Err(_) => None,
    }
}

/// The URL of a file, given the platform's answer to stripping the root off
/// its path: `/` and the rest when the root is a prefix, else `/` and the
/// whole path, with `\` written as `/`.
pub open spec fn url_from(path: Seq<char>, rel: Option<Seq<char>>) -> Seq<char> {
    match rel {
        Some(r) => "/"@ + replace_char(r, '\\', "/"@),
        None => "/"@ + replace_char(path, '\\', "/"@),
    }
}

/// `u` is the URL of `path` under `root` for some answer of the platform
/// to stripping the root.
pub open spec fn url_for(path: Seq<char>, root: Seq<char>, u: Seq<char>) -> bool {
    exists|rel: Option<Seq<char>>| strip_ok(path, root, rel) && u == #[trigger] url_from(path, rel)
}

/// The URL of a file for the browser, from the rest of its path after the
/// root (`None` when the root is not a prefix).
pub fn url_with(path: &str, rel: Option<&str>) -> (r: String)
    ensures
        r@ == url_from(path@, opt_str_view(rel)),
{
    let mut url = owned("/");
    match rel {
        Some(rel) => push_str(&mut url, replace_char_str(rel, '\\', "/").as_str()),
        None => push_str(&mut url, replace_char_str(path, '\\', "/").as_str()),
    }
    proof {
        reveal_strlit("/");
    }
    url
}

/// An optional borrowed string as chars.
pub open spec fn opt_str_view(o: Option<&str>) -> Option<Seq<char>> {
    match o {
        Some(s) => Some(s@),
        None => None,
    }
}

/// The URL of a file for the browser, the root stripped as this platform
/// strips paths.
pub fn path_to_url(path: &str, root_dir: &str) -> (r: String)
    ensures
        url_for(path@, root_dir@, r@),
        forall|rest: Seq<char>| #[trigger] under_root(path@, root_dir@, rest) ==> r@ == seq!['/'] + rest,
{
    let rel = strip_path_prefix(path, root_dir);
    let r = match &rel {
        Some(x) => url_with(path, Some(x.as_str())),
        None => url_with(path, None),
    };
    assert(strip_ok(path@, root_dir@, opt_view(rel)) && r@ == url_from(path@, opt_view(rel)));
    proof {
        assert forall|rest: Seq<char>| #[trigger] under_root(path@, root_dir@, rest) implies r@ == seq!['/'] + rest by {
            law_url_under_root(path@, root_dir@, r@, rest);
        }
    }
    r
}

/// The default module id, given the platform's answer to stripping the root
/// off the path: `/` and the rest, or the whole path when the root is not a
/// prefix.
pub open spec fn module_id_from(path: Seq<char>, rel: Option<Seq<char>>) -> Seq<char> {
    match rel {
        Some(r) => "/"@ + r,
        None => path,
    }
}

/// `id` is the default module id of `path` under `root` for some answer of
/// the platform to stripping the root.
pub open spec fn module_id_for(path: Seq<char>, root: Seq<char>, id: Seq<char>) -> bool {
    exists|rel: Option<Seq<char>>| strip_ok(path, root, rel) && id == #[trigger] module_id_from(path, rel)
}

/// The default module id from the rest of the path after the root.
pub fn module_id_with(file_path: &str, rel: Option<&str>) -> (r: String)
    ensures
        r@ == module_id_from(file_path@, opt_str_view(rel)),
{
    match rel {
        Some(rel) => {
            let mut id = owned("/");
            push_str(&mut id, rel);
            proof {
                reveal_strlit("/");
            }
            id
        },
        None => owned(file_path),
    }
}

/// The default module id used for Fast Refresh registry matching, the root
/// stripped as this platform strips paths.
pub fn default_module_id(file_path: &str, root_dir: &str) -> (r: String)
    ensures
        module_id_for(file_path@, root_dir@, r@),
        forall|rest: Seq<char>| #[trigger] under_root(file_path@, root_dir@, rest) ==> r@ == seq!['/'] + rest,
{
    let rel = strip_path_prefix(file_path, root_dir);
    let r = match &rel {
        Some(x) => module_id_with(file_path, Some(x.as_str())),
        None => module_id_with(file_path, None),
    };
    assert(strip_ok(file_path@, root_dir@, opt_view(rel)) && r@ == module_id_from(file_path@, opt_view(rel)));
    proof {
        reveal_strlit("/");
    }
    r
}

proof fn lemma_replace_none(s: Seq<char>, from: char, to: Seq<char>)
    requires
        forall|i: int| 0 <= i < s.len() ==> s[i] != from,
    ensures
        replace_char(s, from, to) == s,
    decreases s.len(),
{
    if s.len() > 0 {
        lemma_replace_none(s.drop_last(), from, to);
        assert(s.drop_last() + seq![s.last()] =~= s);
    }
}

proof fn lemma_plain_rel_chars(s: Seq<char>)
    requires
        plain_rel(s),
    ensures
        forall|i: int| 0 <= i < s.len() ==> s[i] != '\\',
    decreases s.len(),
{
    if !plain_part(s) {
        let k = choose|k: int|
            0 < k < s.len() - 1 && s[k] == '/' && plain_part(#[trigger] s.take(k)) && plain_rel(s.skip(k + 1));
        lemma_plain_rel_chars(s.skip(k + 1));
        assert forall|i: int| 0 <= i < s.len() implies s[i] != '\\' by {
            if i < k {
                assert(s.take(k)[i] == s[i]);
            } else if i > k {
                assert(s.skip(k + 1)[i - k - 1] == s[i]);
            }
        }
    }
}

/// A plain file under a plain root has the URL `/` and its path after the
/// root, on every platform (`/project/src/Button.tsx` under `/project` is
/// `/src/Button.tsx`).
pub proof fn law_url_under_root(path: Seq<char>, root: Seq<char>, u: Seq<char>, rest: Seq<char>)
    requires
        url_for(path, root, u),
        under_root(path, root, rest),
    ensures
        u == seq!['/'] + rest,
{
    reveal_strlit("/");
    let rel = choose|rel: Option<Seq<char>>| strip_ok(path, root, rel) && u == #[trigger] url_from(path, rel);
    assert(rel == Some(rest));
    lemma_plain_rel_chars(rest);
    lemma_replace_none(rest, '\\', "/"@);
}

/// A plain file under a plain root has the module id `/` and its path
/// after the root, on every platform.
pub proof fn law_module_id_under_root(path: Seq<char>, root: Seq<char>, id: Seq<char>, rest: Seq<char>)
    requires
        module_id_for(path, root, id),
        under_root(path, root, rest),
    ensures
        id == seq!['/'] + rest,
{
    reveal_strlit("/");
    let rel = choose|rel: Option<Seq<char>>| strip_ok(path, root, rel) && id == #[trigger] module_id_from(path, rel);
    assert(rel == Some(rest));
}

fn copy_strings(v: &Vec<String>) -> (r: Vec<String>)
    ensures
        r@ == v@,
{
    let mut r: Vec<String> = Vec::new();
    let mut i: usize = 0;
    while i < v.len()
        invariant
            i <= v.len(),
            r@ == v@.take(i as int),
        decreases v.len() - i,
    {
        r.push(v[i].clone());
        proof {
            assert(v@.take(i as int).push(v@[i as int]) =~= v@.take(i + 1));
        }
        i += 1;
    }
    proof {
        assert(v@.take(v.len() as int) =~= v@);
    }
    r
}

/// What the default HMR strategy does with an invalidation: a full reload
/// for the entry file, a CSS update for a CSS-only change, else an update
/// of the invalidated modules.
pub open spec fn default_hmr_action(result: InvalidationResult, a: HmrAction) -> bool {
    &&& result.is_entry_file ==> (a matches HmrAction::FullReload(r) && r@ == "entry file changed"@)
    &&& !result.is_entry_file && result.is_css_only ==> (a matches HmrAction::CssUpdate(f) && f@
        == result.changed_file@)
    &&& !result.is_entry_file && !result.is_css_only ==> (a matches HmrAction::ModuleUpdate(fs) && fs@
        == result.invalidated_files@)
}

/// The default HMR decision: the entry file reloads the page, a CSS-only
/// change updates the stylesheet, anything else hot-updates the invalidated
/// modules.
pub fn default_hmr_strategy(result: &InvalidationResult) -> (a: HmrAction)
    ensures
        result.is_entry_file ==> (a matches HmrAction::FullReload(r) && r@ == "entry file changed"@),
        !result.is_entry_file && result.is_css_only ==> (a matches HmrAction::CssUpdate(f) && f@
            == result.changed_file@),
        !result.is_entry_file && !result.is_css_only ==> (a matches HmrAction::ModuleUpdate(fs) && fs@
            == result.invalidated_files@),
{
    if result.is_entry_file {
        let r = owned("entry file changed");
        proof {
            reveal_strlit("entry file changed");
        }
        HmrAction::FullReload(r)
    } else if result.is_css_only {
        HmrAction::CssUpdate(result.changed_file.clone())
    } else {
        HmrAction::ModuleUpdate(copy_strings(&result.invalidated_files))
    }
}

/// The message an HMR action sends at `timestamp`: a reload with its reason,
/// an update of the modules' URLs, a CSS update of the file's URL, or the
/// no-op `Connected` for an action the plugin handled.
pub fn hmr_message_at(action: &HmrAction, root_dir: &str, timestamp: u64) -> (m: HmrMessage)
    ensures
        match *action {
            HmrAction::FullReload(reason) => m matches HmrMessage::FullReload { reason: r } && r@ == reason@,
            HmrAction::ModuleUpdate(files) => m matches HmrMessage::Update { modules, timestamp: t } && t
                == timestamp && urls_for(files@, root_dir@, modules@),
            HmrAction::CssUpdate(file) => m matches HmrMessage::CssUpdate { file: u, timestamp: t } && t
                == timestamp && url_for(file@, root_dir@, u@),
            HmrAction::Handled => m is Connected,
        },
{
    match action {
        HmrAction::FullReload(reason) => HmrMessage::FullReload { reason: reason.clone() },
        HmrAction::ModuleUpdate(files) => {
            let mut modules: Vec<String> = Vec::new();
            let mut i: usize = 0;
            while i < files.len()
                invariant
                    i <= files.len(),
                    modules@.len() == i,
                    forall|j: int| 0 <= j < i ==> url_for(files@[j]@, root_dir@, #[trigger] modules@[j]@),
                decreases files.len() - i,
            {
                let u = path_to_url(files[i].as_str(), root_dir);
                modules.push(u);
                i += 1;
            }
            HmrMessage::Update { modules, timestamp }
        },
        HmrAction::CssUpdate(file) => HmrMessage::CssUpdate {
            file: path_to_url(file.as_str(), root_dir),
            timestamp,
        },
        HmrAction::Handled => HmrMessage::Connected,
    }
}

/// Milliseconds since the Unix epoch (`SystemTime::now`), 0 when the clock
/// is before the epoch. Nothing is stated of the result, which depends on
/// the clock.
#[verifier::external_body]
fn now_millis() -> (t: u64) {
    std::time::SystemTime::now().duration_since(std::time::UNIX_EPOCH).map(|d| d.as_millis() as u64).unwrap_or(0)
}

/// Convert an [`HmrAction`] into an [`HmrMessage`], stamped with the
/// current time.
pub fn hmr_action_to_message(action: &HmrAction, root_dir: &str) -> (m: HmrMessage)
    ensures
        exists|t: u64| #[trigger] hmr_message_matches(m, *action, root_dir@, t),
{
    let t = now_millis();
    let m = hmr_message_at(action, root_dir, t);
    assert(hmr_message_matches(m, *action, root_dir@, t));
    m
}

/// Each module URL is the URL of the file at its position.
pub open spec fn urls_for(files: Seq<String>, root: Seq<char>, modules: Seq<String>) -> bool {
    &&& modules.len() == files.len()
    &&& forall|j: int| 0 <= j < files.len() ==> url_for(files[j]@, root, #[trigger] modules[j]@)
}

/// `m` is the message `action` sends at time `t`.
pub open spec fn hmr_message_matches(m: HmrMessage, action: HmrAction, root: Seq<char>, t: u64) -> bool {
    match action {
        HmrAction::FullReload(reason) => m matches HmrMessage::FullReload { reason: r } && r@ == reason@,
        HmrAction::ModuleUpdate(files) => m matches HmrMessage::Update { modules, timestamp } && timestamp == t
            && urls_for(files@, root, modules@),
        HmrAction::CssUpdate(file) => m matches HmrMessage::CssUpdate { file: u, timestamp } && timestamp == t
            && url_for(file@, root, u@),
        HmrAction::Handled => m is Connected,
    }
}

/// The errors among the diagnostics, in order, as compile errors.
pub open spec fn errors_of(ds: Seq<CompileDiagnostic>) -> Seq<(Seq<char>, Option<u32>, Option<u32>)>
    decreases ds.len(),
{
    if ds.len() == 0 {
        seq![]
    } else {
        let rest = errors_of(ds.drop_last());
        let d = ds.last();
        if d.is_warning {
            rest
        } else {
            rest.push((d.message@, d.line, d.column))
        }
    }
}

pub open spec fn error_v(e: CompileError) -> (Seq<char>, Option<u32>, Option<u32>) {
    (e.message@, e.line, e.column)
}

/// Convert compile diagnostics to compile errors, filtering out warnings.
pub fn diagnostics_to_errors(diagnostics: &[CompileDiagnostic]) -> (r: Vec<CompileError>)
    ensures
        r@.map_values(|e: CompileError| error_v(e)) == errors_of(diagnostics@),
{
    let mut errors: Vec<CompileError> = Vec::new();
    let mut i: usize = 0;
    while i < diagnostics.len()
        invariant
            i <= diagnostics.len(),
            errors@.map_values(|e: CompileError| error_v(e)) == errors_of(diagnostics@.take(i as int)),
        decreases diagnostics.len() - i,
    {
        let d = &diagnostics[i];
        proof {
            assert(diagnostics@.take(i + 1).drop_last() =~= diagnostics@.take(i as int));
            assert(diagnostics@.take(i + 1).last() == *d);
        }
        if !d.is_warning {
            let ghost eb = errors@;
            errors.push(CompileError { message: d.message.clone(), line: d.line, column: d.column });
            proof {
                assert(errors@.map_values(|e: CompileError| error_v(e)) =~= eb.map_values(
                    |e: CompileError| error_v(e),
                ).push((d.message@, d.line, d.column)));
            }
        }
        i += 1;
    }
    proof {
        assert(diagnostics@.take(diagnostics.len() as int) =~= diagnostics@);
    }
    errors
}

/// The file extensions watched by default: ts, tsx, css.
pub fn default_watch_extensions() -> (r: Vec<String>)
    ensures
        r@.map_values(|s: String| s@) == seq!["ts"@, "tsx"@, "css"@],
{
    let mut r: Vec<String> = Vec::new();
    r.push(owned("ts"));
    r.push(owned("tsx"));
    r.push(owned("css"));
    proof {
        assert(r@.map_values(|s: String| s@) =~= seq!["ts"@, "tsx"@, "css"@]);
    }
    r
}

/// The files whose change restarts the server by default.
pub fn default_restart_triggers() -> (r: Vec<String>)
    ensures
        r@.map_values(|s: String| s@) == seq!["package.json"@, "tsconfig.json"@, ".env"@],
{
    let mut r: Vec<String> = Vec::new();
    r.push(owned("package.json"));
    r.push(owned("tsconfig.json"));
    r.push(owned(".env"));
    proof {
        assert(r@.map_values(|s: String| s@) =~= seq!["package.json"@, "tsconfig.json"@, ".env"@]);
    }
    r
}

/// The error for an MCP tool the plugin does not have.
pub fn unknown_tool_error(name: &str) -> (r: String)
    ensures
        r@ == "Unknown plugin tool: "@ + name@,
{
    let mut r = owned("Unknown plugin tool: ");
    push_str(&mut r, name);
    proof {
        reveal_strlit("Unknown plugin tool: ");
    }
    r
}

/// A framework plugin for the vtz dev server.
///
/// Implementations provide framework-specific compilation, HMR behavior,
/// and client-side scripts. The runtime handles everything else: file watching,
/// module graph, caching, HTTP serving, WebSocket transport.
pub trait FrameworkPlugin {
    /// Human-readable name (e.g., "vertz", "react").
    fn name(&self) -> &str;

    /// Compile a source file for browser consumption.
    fn compile(&self, source: &str, ctx: &CompileContext) -> CompileOutput;

    /// Post-process compiled code before import rewriting (default: unchanged).
    fn post_process(&self, code: &str, ctx: &CompileContext) -> (r: String)
        default_ensures
            r@ == code@,
    {
        owned(code)
    }

    /// Resolve a bare import specifier to a path (default: none, so the
    /// runtime's /@deps/ resolution applies).
    fn resolve_import(&self, specifier: &str) -> (r: Option<String>)
        default_ensures
            r is None,
    {
        None
    }

    /// Client-side scripts injected into the HTML shell before the entry module.
    fn hmr_client_scripts(&self) -> Vec<ClientScript>;

    /// Decide what HMR action to take for a file change.
    fn hmr_strategy(&self, result: &InvalidationResult) -> (a: HmrAction)
        default_ensures
            default_hmr_action(*result, a),
    {
        default_hmr_strategy(result)
    }

    /// The ID of the root DOM element (default: "app").
    fn root_element_id(&self) -> (r: &str)
        default_ensures
            r@ == "app"@,
    {
        "app"
    }

    /// Additional `<head>` content for the HTML shell.
    fn head_html(&self) -> (r: Option<String>)
        default_ensures
            r is None,
    {
        None
    }

    /// File extensions this plugin cares about (default: ts, tsx, css).
    fn watch_extensions(&self) -> (r: Vec<String>)
        default_ensures
            r@.map_values(|s: String| s@) == seq!["ts"@, "tsx"@, "css"@],
    {
        default_watch_extensions()
    }

    /// Files that trigger a full server restart when changed.
    fn restart_triggers(&self) -> (r: Vec<String>)
        default_ensures
            r@.map_values(|s: String| s@) == seq!["package.json"@, "tsconfig.json"@, ".env"@],
    {
        default_restart_triggers()
    }

    /// Whether this plugin wraps modules for Fast Refresh / HMR accept.
    fn supports_fast_refresh(&self) -> (r: bool)
        default_ensures
            !r,
    {
        false
    }

    /// Generate a module ID for Fast Refresh registry matching.
    fn module_id(&self, file_path: &str, root_dir: &str) -> (r: String)
        default_ensures
            module_id_for(file_path@, root_dir@, r@),
    {
        default_module_id(file_path, root_dir)
    }

    /// Additional MCP tool definitions contributed by this plugin.
    fn mcp_tool_definitions(&self) -> (r: Vec<PluginMcpTool>)
        default_ensures
            r@.len() == 0,
    {
        Vec::new()
    }

    /// Execute a plugin-contributed MCP tool by name.
    fn execute_mcp_tool(
        &self,
        name: &str,
        args: &serde_json::Value,
        ctx: &PluginContext,
    ) -> (r: Result<serde_json::Value, String>)
        default_ensures
            r matches Err(e) && e@ == "Unknown plugin tool: "@ + name@,
    {
        Err(unknown_tool_error(name))
    }
}

} // verus!
