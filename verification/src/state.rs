//! The editor's own state: playback and compile status, the console log,
//! the selection in the live object tree, and the asset and prefab tabs.
//! Threads, channels, GPU handles and previews live beside it in the
//! application; the methods here decide, the application carries out.
use vstd::prelude::*;
use std::collections::VecDeque;
use crate::asset_state::AssetState;
use crate::prefab_state::{PrefabState, toggle_key, toggled};
use crate::prefab_types::{strings_view};
use crate::runner::RunnerMessage;
use crate::object_tree::{
    InstanceTabs, ObjectNode, resolve_object, resolved_object, instances_size, total_object_count, object_count_label,
};
use crate::text::{chars_of, concat, owned, contains_seq, lowercase, to_lowercase, vec_contains, str_eq, nat_decimal, string_from_chars, u64_decimal};

verus! {

// ─── small enums ───────────────────────────────────────────────────────────

/// Whether the game is stopped, running or paused.
#[derive(Debug, Clone, Copy, PartialEq, Eq, Structural)]
pub enum EditorMode {
    Stopped,
    Playing,
    Paused,
}

/// Where the build of the game project is.
#[derive(Debug, Clone, Copy, PartialEq, Eq, Structural)]
pub enum CompileStatus {
    Idle,
    Compiling,
    Success,
    Error,
}

/// The editor's top-level tabs.
#[derive(Debug, Clone, Copy, PartialEq, Eq, Structural)]
pub enum TopTab {
    Play,
    Asset,
    Input,
    Prefab,
}

/// How a console line is shown.
#[derive(Debug, Clone, Copy, PartialEq, Eq, Structural)]
pub enum LogLevel {
    Info,
    Warn,
    Error,
}

/// The severity the engine's logger gives a message.
#[derive(Debug, Clone, Copy, PartialEq, Eq, Structural)]
pub enum Severity {
    Info,
    Warning,
    Error,
}

/// One console line.
#[derive(Debug)]
pub struct LogLine {
    pub level: LogLevel,
    pub message: String,
    pub time: String,
}

/// Model of a console line.
pub struct LogLineView {
    pub level: LogLevel,
    pub message: Seq<char>,
    pub time: Seq<char>,
}

impl View for LogLine {
    type V = LogLineView;

    open spec fn view(&self) -> LogLineView {
        LogLineView { level: self.level, message: self.message@, time: self.time@ }
    }
}

/// Models of console lines.
pub open spec fn lines_view(s: Seq<LogLine>) -> Seq<LogLineView> {
    s.map_values(|l: LogLine| l@)
}

// ─── log lines ─────────────────────────────────────────────────────────────

/// The tag a logger message is shown with.
pub open spec fn severity_tag(sev: Severity) -> Seq<char> {
    match sev {
        Severity::Info => "[INFO]"@,
        Severity::Warning => "[WARN]"@,
        Severity::Error => "[ERROR]"@,
    }
}

/// The tag of a severity: `[INFO]`, `[WARN]` or `[ERROR]`.
pub fn severity_label(sev: Severity) -> (r: &'static str)
    ensures
        r@ == severity_tag(sev),
{
    match sev {
        Severity::Info => "[INFO]",
        Severity::Warning => "[WARN]",
        Severity::Error => "[ERROR]",
    }
}

/// The console text of a logger message: `"{tag}: {message}"`.
pub fn log_text(sev: Severity, message: &str) -> (r: String)
    ensures
        r@ == severity_tag(sev) + ": "@ + message@,
{
    let tag = severity_label(sev);
    let with_sep = concat(tag, ": ");
    concat(with_sep.as_str(), message)
}

/// How a console line is classified, by what its lowercased text holds.
pub open spec fn level_of(line: Seq<char>) -> LogLevel {
    let lower = lowercase(line);
    if contains_seq(lower, "[error]"@) || contains_seq(lower, "error:"@) || contains_seq(lower, "panicked"@) {
        LogLevel::Error
    } else if contains_seq(lower, "[warn]"@) || contains_seq(lower, "warning:"@) {
        LogLevel::Warn
    } else {
        LogLevel::Info
    }
}

/// Classifies a console line: errors (`[error]`, `error:`, `panicked`),
/// then warnings (`[warn]`, `warning:`), regardless of case; anything else
/// is information.
pub fn classify_line(line: &str) -> (r: LogLevel)
    ensures
        r == level_of(line@),
{
    let lower = to_lowercase(line);
    let v = chars_of(lower.as_str());
    if vec_contains(&v, &chars_of("[error]")) || vec_contains(&v, &chars_of("error:")) || vec_contains(&v, &chars_of("panicked")) {
        LogLevel::Error
    } else if vec_contains(&v, &chars_of("[warn]")) || vec_contains(&v, &chars_of("warning:")) {
        LogLevel::Warn
    } else {
        LogLevel::Info
    }
}

/// The console keeps at most this many lines.
pub const MAX_LOG_LINES: usize = 500;

/// The console after appending a line: the oldest lines dropped to keep at
/// most `MAX_LOG_LINES`.
pub open spec fn logs_after_push(logs: Seq<LogLineView>, line: LogLineView) -> Seq<LogLineView> {
    let all = logs.push(line);
    if all.len() > MAX_LOG_LINES {
        all.skip(all.len() - MAX_LOG_LINES)
    } else {
        all
    }
}

/// Where the build message of a failed compile comes from.
pub open spec fn build_failed_message() -> Seq<char> {
    "Build failed \u{2014} see console for details"@
}

/// The path of a project's facet manifest (`Path::join` of
/// `facet.manifest`): a `/` is put in between unless the project path is
/// empty or already ends in one.
pub open spec fn facet_manifest_path_of(project_path: Seq<char>) -> Seq<char> {
    if project_path.len() == 0 || project_path.last() == '/' {
        project_path + "facet.manifest"@
    } else {
        project_path + "/facet.manifest"@
    }
}

/// The path of the project's `facet.manifest`.
pub fn project_facet_manifest_path(project_path: &str) -> (r: String)
    ensures
        r@ == facet_manifest_path_of(project_path@),
{
    let v = chars_of(project_path);
    if v.len() == 0 || v[v.len() - 1] == '/' {
        concat(project_path, "facet.manifest")
    } else {
        concat(project_path, "/facet.manifest")
    }
}

// ─── the editor state ──────────────────────────────────────────────────────

/// The editor's own state.
pub struct EditorState {
    pub active_tab: TopTab,
    pub mode: EditorMode,
    pub compile_status: CompileStatus,
    pub build_error: String,
    /// the console lines, oldest first
    pub logs: VecDeque<LogLine>,
    pub unread_logs: usize,
    pub console_open: bool,
    pub log_polling: bool,
    pub project_path: String,
    /// the game's instances with their tabs and objects, as last reported
    pub tab_group_state: Option<Vec<InstanceTabs>>,
    pub selected_instance: String,
    pub active_left_tab: usize,
    pub selected_object_path: Option<Vec<usize>>,
    /// keys of the expanded object-tree nodes, kept as a set
    /// (a `Vec`: vstd states `HashSet` only for keys with a key model,
    /// and `String` has none)
    pub expanded_nodes: Vec<String>,
    pub asset: AssetState,
    pub prefab: PrefabState,
}

/// Model of the editor's own fields (the asset and prefab tabs have their
/// own).
pub struct EditorStateView {
    pub active_tab: TopTab,
    pub mode: EditorMode,
    pub compile_status: CompileStatus,
    pub build_error: Seq<char>,
    pub logs: Seq<LogLineView>,
    pub unread_logs: nat,
    pub console_open: bool,
    pub log_polling: bool,
    pub project_path: Seq<char>,
    pub tab_group_state: Option<Seq<InstanceTabs>>,
    pub selected_instance: Seq<char>,
    pub active_left_tab: nat,
    pub selected_object_path: Option<Seq<usize>>,
    pub expanded_nodes: Seq<Seq<char>>,
}

impl View for EditorState {
    type V = EditorStateView;

    open spec fn view(&self) -> EditorStateView {
        EditorStateView {
            active_tab: self.active_tab,
            mode: self.mode,
            compile_status: self.compile_status,
            build_error: self.build_error@,
            logs: lines_view(self.logs@),
            unread_logs: self.unread_logs as nat,
            console_open: self.console_open,
            log_polling: self.log_polling,
            project_path: self.project_path@,
            tab_group_state: match self.tab_group_state {
                Some(t) => Some(t@),
                None => None,
            },
            selected_instance: self.selected_instance@,
            active_left_tab: self.active_left_tab as nat,
            selected_object_path: match self.selected_object_path {
                Some(p) => Some(p@),
                None => None,
            },
            expanded_nodes: strings_view(self.expanded_nodes@),
        }
    }
}

/// The state after the play button: building, no error, an empty console
/// that collects the build's output.
pub open spec fn after_play(s: EditorStateView) -> EditorStateView {
    EditorStateView {
        compile_status: CompileStatus::Compiling,
        build_error: Seq::empty(),
        logs: Seq::empty(),
        unread_logs: 0,
        log_polling: true,
        ..s
    }
}

/// The state after the stop button: stopped, idle, nothing selected in the
/// object tree and the game's objects forgotten, an empty console that no
/// longer collects output.
pub open spec fn after_stop(s: EditorStateView) -> EditorStateView {
    EditorStateView {
        mode: EditorMode::Stopped,
        compile_status: CompileStatus::Idle,
        build_error: Seq::empty(),
        logs: Seq::empty(),
        unread_logs: 0,
        log_polling: false,
        tab_group_state: None,
        selected_instance: Seq::empty(),
        active_left_tab: 0,
        selected_object_path: None,
        expanded_nodes: Seq::empty(),
        ..s
    }
}

/// The state after looking at a build that reports `build`, and whether
/// the game starts.
pub open spec fn after_poll_compile(s: EditorStateView, build: CompileStatus) -> (EditorStateView, bool) {
    if s.compile_status != CompileStatus::Compiling {
        (s, false)
    } else {
        match build {
            CompileStatus::Success => (
                EditorStateView { mode: EditorMode::Playing, compile_status: CompileStatus::Success, ..s },
                true,
            ),
            CompileStatus::Error => (
                EditorStateView { compile_status: CompileStatus::Error, build_error: build_failed_message(), ..s },
                false,
            ),
            _ => (s, false),
        }
    }
}

/// The state after a console line arrives.
pub open spec fn after_push_log(s: EditorStateView, line: Seq<char>, time: Seq<char>) -> EditorStateView {
    EditorStateView {
        logs: logs_after_push(s.logs, LogLineView { level: level_of(line), message: line, time }),
        unread_logs: if s.console_open { s.unread_logs } else { s.unread_logs + 1 },
        ..s
    }
}

impl EditorState {
    /// A stopped, idle editor for the project at `project_path`, on the
    /// Play tab, with an empty console.
    pub fn new(project_path: String) -> (r: Self)
        ensures
            r@ == (EditorStateView {
                active_tab: TopTab::Play,
                mode: EditorMode::Stopped,
                compile_status: CompileStatus::Idle,
                build_error: Seq::empty(),
                logs: Seq::empty(),
                unread_logs: 0,
                console_open: false,
                log_polling: false,
                project_path: project_path@,
                tab_group_state: None,
                selected_instance: Seq::empty(),
                active_left_tab: 0,
                selected_object_path: None,
                expanded_nodes: Seq::empty(),
            }),
            r.asset@.roots.len() == 0,
            !r.asset@.roots_loaded,
            r.prefab.raw is None,
            r.prefab.file_path is None,
    {
        let r = EditorState {
            active_tab: TopTab::Play,
            mode: EditorMode::Stopped,
            compile_status: CompileStatus::Idle,
            build_error: String::new(),
            logs: VecDeque::new(),
            unread_logs: 0,
            console_open: false,
            log_polling: false,
            project_path,
            tab_group_state: None,
            selected_instance: String::new(),
            active_left_tab: 0,
            selected_object_path: None,
            expanded_nodes: Vec::new(),
            asset: AssetState::new(),
            prefab: PrefabState::new(),
        };
        assert(lines_view(r.logs@) =~= Seq::<LogLineView>::empty());
        assert(strings_view(r.expanded_nodes@) =~= Seq::<Seq<char>>::empty());
        r
    }

    /// Whether an input event from the viewport goes to the game: only
    /// while it is playing.
    pub fn send_input(&self) -> (forward: bool)
        ensures
            forward == (self.mode == EditorMode::Playing),
    {
        self.mode == EditorMode::Playing
    }

    /// Starts a build for a play session (the caller spawns it).
    pub fn play(&mut self)
        ensures
            final(self)@ == after_play(old(self)@),
            final(self).asset == old(self).asset,
            final(self).prefab == old(self).prefab,
    {
        self.compile_status = CompileStatus::Compiling;
        self.build_error = String::new();
        self.clear_logs();
        self.log_polling = true;
    }

    /// Stops the game (the caller cancels a running build and tells the
    /// runner).
    pub fn stop(&mut self)
        ensures
            final(self)@ == after_stop(old(self)@),
            final(self).asset == old(self).asset,
            final(self).prefab == old(self).prefab,
    {
        self.log_polling = false;
        self.mode = EditorMode::Stopped;
        self.compile_status = CompileStatus::Idle;
        self.build_error = String::new();
        self.clear_logs();
        self.tab_group_state = None;
        self.selected_instance = String::new();
        self.active_left_tab = 0;
        self.selected_object_path = None;
        self.expanded_nodes = Vec::new();
        assert(strings_view(self.expanded_nodes@) =~= Seq::<Seq<char>>::empty());
    }

    /// The pause button: a playing game pauses, a paused one resumes; the
    /// message for the runner is returned. A stopped game stays as it is.
    pub fn pause(&mut self) -> (msg: Option<RunnerMessage>)
        ensures
            final(self)@ == (EditorStateView { mode: pause_step(old(self).mode).0, ..old(self)@ }),
            msg == pause_step(old(self).mode).1,
            final(self).asset == old(self).asset,
            final(self).prefab == old(self).prefab,
    {
        match self.mode {
            EditorMode::Playing => {
                self.mode = EditorMode::Paused;
                Some(RunnerMessage::Pause)
            },
            EditorMode::Paused => {
                self.mode = EditorMode::Playing;
                Some(RunnerMessage::Resume)
            },
            EditorMode::Stopped => None,
        }
    }

    /// Looks at the build while one is running: a finished build starts
    /// the game (answering `true`: the caller starts the runner and sends
    /// `Start`); a failed one is reported, its output still collected.
    pub fn poll_compile(&mut self, build: CompileStatus) -> (start: bool)
        ensures
            (final(self)@, start) == after_poll_compile(old(self)@, build),
            final(self).asset == old(self).asset,
            final(self).prefab == old(self).prefab,
    {
        if self.compile_status != CompileStatus::Compiling {
            return false;
        }
        match build {
            CompileStatus::Success => {
                self.mode = EditorMode::Playing;
                self.compile_status = CompileStatus::Success;
                true
            },
            CompileStatus::Error => {
                self.compile_status = CompileStatus::Error;
                self.build_error = "Build failed \u{2014} see console for details".to_string();
                false
            },
            _ => false,
        }
    }

    /// Appends a console line stamped `time`, classified by its text; the
    /// oldest lines go beyond `MAX_LOG_LINES`; while the console is closed
    /// the line counts as unread.
    #[verifier::spinoff_prover]
    #[verifier::rlimit(40)]
    pub fn push_log(&mut self, line: String, time: String)
        requires
            old(self).console_open || old(self).unread_logs < usize::MAX,
        ensures
            final(self)@ == after_push_log(old(self)@, line@, time@),
            final(self).asset == old(self).asset,
            final(self).prefab == old(self).prefab,
    {
        let level = classify_line(line.as_str());
        let ghost entry = LogLineView { level: level_of(line@), message: line@, time: time@ };
        let ghost before = lines_view(self.logs@);
        self.logs.push_back(LogLine { level, message: line, time });
        proof {
            assert(lines_view(self.logs@) =~= before.push(entry));
        }
        let ghost all = before.push(entry);
        assert(all.len() == self.logs.len());
        let mut dropped: usize = 0;
        while self.logs.len() > MAX_LOG_LINES
            invariant
                all.len() == old(self).logs@.len() + 1,
                all.len() <= usize::MAX,
                dropped <= all.len(),
                lines_view(self.logs@) == all.skip(dropped as int),
                all.len() > MAX_LOG_LINES ==> dropped <= all.len() - MAX_LOG_LINES,
                all.len() <= MAX_LOG_LINES ==> dropped == 0,
                self.logs@.len() == all.len() - dropped,
                self.unread_logs == old(self).unread_logs,
                self.console_open == old(self).console_open,
                self.mode == old(self).mode,
                self.active_tab == old(self).active_tab,
                self.compile_status == old(self).compile_status,
                self.build_error == old(self).build_error,
                self.log_polling == old(self).log_polling,
                self.project_path == old(self).project_path,
                self.tab_group_state == old(self).tab_group_state,
                self.selected_instance == old(self).selected_instance,
                self.active_left_tab == old(self).active_left_tab,
                self.selected_object_path == old(self).selected_object_path,
                self.expanded_nodes == old(self).expanded_nodes,
                self.asset == old(self).asset,
                self.prefab == old(self).prefab,
            decreases self.logs@.len(),
        {
            let ghost prev = lines_view(self.logs@);
            let ghost old_logs = self.logs@;
            let _oldest = self.logs.pop_front();
            proof {
                assert(self.logs@ =~= old_logs.remove(0));
                assert(lines_view(self.logs@) =~= prev.skip(1));
                assert(prev.skip(1) =~= all.skip(dropped + 1));
            }
            dropped += 1;
        }
        proof {
            if all.len() > MAX_LOG_LINES {
                assert(dropped == all.len() - MAX_LOG_LINES);
            } else {
                assert(all.skip(0) =~= all);
            }
            assert(lines_view(self.logs@) == logs_after_push(before, entry));
        }
        if !self.console_open {
            self.unread_logs += 1;
        }
    }

    /// Empties the console.
    pub fn clear_logs(&mut self)
        ensures
            final(self)@ == (EditorStateView { logs: Seq::empty(), unread_logs: 0, ..old(self)@ }),
            final(self).asset == old(self).asset,
            final(self).prefab == old(self).prefab,
    {
        self.logs = VecDeque::new();
        self.unread_logs = 0;
        assert(lines_view(self.logs@) =~= Seq::<LogLineView>::empty());
    }

    /// Opens or closes the console; opening it reads all lines.
    pub fn toggle_console(&mut self)
        ensures
            final(self)@ == (EditorStateView {
                console_open: !old(self).console_open,
                unread_logs: if !old(self).console_open { 0 } else { old(self)@.unread_logs },
                ..old(self)@
            }),
            final(self).asset == old(self).asset,
            final(self).prefab == old(self).prefab,
    {
        self.console_open = !self.console_open;
        if self.console_open {
            self.unread_logs = 0;
        }
    }

    /// Takes the game's latest report of its instances, tabs and objects,
    /// and keeps the selected instance valid against it: it stays if still
    /// reported, else the first one reported is taken (none when there are
    /// none).
    #[verifier::spinoff_prover]
    #[verifier::rlimit(40)]
    pub fn refresh_tab_group(&mut self, snapshot: Vec<InstanceTabs>)
        ensures
            final(self)@ == (EditorStateView {
                tab_group_state: Some(snapshot@),
                selected_instance: if exists|j: int| 0 <= j < snapshot@.len()
                    && #[trigger] snapshot@[j].instance@ == old(self).selected_instance@ {
                    old(self).selected_instance@
                } else if snapshot@.len() > 0 {
                    snapshot@[0].instance@
                } else {
                    Seq::empty()
                },
                ..old(self)@
            }),
            final(self).asset == old(self).asset,
            final(self).prefab == old(self).prefab,
    {
        let mut found = false;
        let mut i: usize = 0;
        while i < snapshot.len()
            invariant
                i <= snapshot@.len(),
                found == exists|j: int| 0 <= j < i && #[trigger] snapshot@[j].instance@ == self.selected_instance@,
                *self == *old(self),
            decreases snapshot@.len() - i,
        {
            if str_eq(snapshot[i].instance.as_str(), self.selected_instance.as_str()) {
                found = true;
            }
            i += 1;
        }
        if !found {
            self.selected_instance = if snapshot.len() > 0 { snapshot[0].instance.clone() } else { String::new() };
        }
        self.tab_group_state = Some(snapshot);
    }

    /// The object selected in the object tree: the one at the selected
    /// path in the active tab of the selected instance, if the game
    /// reported it.
    pub fn selected_object(&self) -> (r: Option<&ObjectNode>)
        ensures
            ({
                let found = match (self.selected_object_path, self.tab_group_state) {
                    (Some(path), Some(groups)) => resolved_object(
                        groups@,
                        self.selected_instance@,
                        self.active_left_tab as int,
                        path@,
                    ),
                    _ => None,
                };
                &&& r matches Some(n) ==> found == Some(*n)
                &&& r is None ==> found is None
            }),
    {
        let path = match &self.selected_object_path {
            Some(p) => p,
            None => {
                return None;
            },
        };
        let groups = match &self.tab_group_state {
            Some(g) => g,
            None => {
                return None;
            },
        };
        resolve_object(groups, self.selected_instance.as_str(), self.active_left_tab, path.as_slice())
    }

    /// Selects a game instance: its first tab, nothing selected in it.
    pub fn select_instance(&mut self, key: String)
        ensures
            final(self)@ == (EditorStateView {
                selected_instance: key@,
                active_left_tab: 0,
                selected_object_path: None,
                ..old(self)@
            }),
            final(self).asset == old(self).asset,
            final(self).prefab == old(self).prefab,
    {
        self.selected_instance = key;
        self.active_left_tab = 0;
        self.selected_object_path = None;
    }

    /// Switches the left panel's tab, dropping the object selection.
    pub fn set_active_left_tab(&mut self, idx: usize)
        ensures
            final(self)@ == (EditorStateView { active_left_tab: idx as nat, selected_object_path: None, ..old(self)@ }),
            final(self).asset == old(self).asset,
            final(self).prefab == old(self).prefab,
    {
        self.active_left_tab = idx;
        self.selected_object_path = None;
    }

    /// Selects an object of the live tree by its index path (or nothing).
    pub fn select_object_by_path(&mut self, path: Option<Vec<usize>>)
        ensures
            final(self)@ == (EditorStateView {
                selected_object_path: match path {
                    Some(p) => Some(p@),
                    None => None,
                },
                ..old(self)@
            }),
            final(self).asset == old(self).asset,
            final(self).prefab == old(self).prefab,
    {
        self.selected_object_path = path;
    }

    /// Expands a collapsed object-tree node, collapses an expanded one.
    pub fn toggle_node(&mut self, path: String)
        ensures
            toggled(old(self)@.expanded_nodes, final(self)@.expanded_nodes, path@),
            final(self)@ == (EditorStateView { expanded_nodes: final(self)@.expanded_nodes, ..old(self)@ }),
            final(self).asset == old(self).asset,
            final(self).prefab == old(self).prefab,
    {
        toggle_key(&mut self.expanded_nodes, path);
    }
}

// ─── what the frame shows ──────────────────────────────────────────────────

impl EditorState {
    /// The window keeps repainting while something moves: a game that is
    /// not stopped, or a build in progress.
    pub fn needs_repaint(&self) -> (r: bool)
        ensures
            r == (self.mode != EditorMode::Stopped || self.compile_status == CompileStatus::Compiling),
    {
        self.mode != EditorMode::Stopped || self.compile_status == CompileStatus::Compiling
    }
}

/// Whether a preview must be (re)loaded for `path`: unless the one loaded
/// is of that very file.
pub fn preview_stale(loaded: Option<&str>, path: &str) -> (r: bool)
    ensures
        r == match loaded {
            Some(p) => p@ != path@,
            None => true,
        },
{
    match loaded {
        Some(p) => !str_eq(p, path),
        None => true,
    }
}

/// The top tabs in order, with their labels and whether they are still
/// to be built.
pub open spec fn tab_info(tab: TopTab) -> (Seq<char>, bool) {
    match tab {
        TopTab::Play => ("\u{25B6} Play"@, false),
        TopTab::Asset => ("Asset"@, false),
        TopTab::Input => ("Input"@, true),
        TopTab::Prefab => ("Prefab"@, true),
    }
}

/// The label of a top tab and whether it is marked as still to be built.
pub fn tab_label(tab: TopTab) -> (r: (&'static str, bool))
    ensures
        (r.0@, r.1) == tab_info(tab),
{
    match tab {
        TopTab::Play => ("\u{25B6} Play", false),
        TopTab::Asset => ("Asset", false),
        TopTab::Input => ("Input", true),
        TopTab::Prefab => ("Prefab", true),
    }
}

/// Which buttons of the play bar can be pressed.
pub struct PlayBar {
    pub play_enabled: bool,
    pub pause_enabled: bool,
    pub stop_enabled: bool,
}

impl EditorState {
    /// Play can be pressed unless the game is playing; pause and stop
    /// unless it is stopped.
    pub fn play_bar(&self) -> (r: PlayBar)
        ensures
            r.play_enabled == (self.mode != EditorMode::Playing),
            r.pause_enabled == (self.mode != EditorMode::Stopped),
            r.stop_enabled == (self.mode != EditorMode::Stopped),
    {
        let playing = self.mode == EditorMode::Playing;
        let stopped = self.mode == EditorMode::Stopped;
        PlayBar { play_enabled: !playing, pause_enabled: !stopped, stop_enabled: !stopped }
    }

    /// The console button's caption: `Console ▼` while open, else the
    /// number of unread lines (at most 99) in brackets when there are any.
    pub fn console_button_label(&self) -> (r: String)
        ensures
            r@ == if self.console_open {
                "Console \u{25BC}"@
            } else if self.unread_logs > 0 {
                "Console ("@ + nat_decimal(if self.unread_logs < 99 { self.unread_logs as nat } else { 99 }) + ")"@
            } else {
                "Console"@
            },
    {
        if self.console_open {
            owned("Console \u{25BC}")
        } else if self.unread_logs > 0 {
            let shown: usize = if self.unread_logs < 99 { self.unread_logs } else { 99 };
            let digits = string_from_chars(&u64_decimal(shown as u64));
            let a = concat("Console (", digits.as_str());
            concat(a.as_str(), ")")
        } else {
            owned("Console")
        }
    }

    /// The build-failure window is shown after a failed build while its
    /// message has not been dismissed.
    pub fn shows_build_error(&self) -> (r: bool)
        ensures
            r == (self.compile_status == CompileStatus::Error && self.build_error@.len() > 0),
    {
        self.compile_status == CompileStatus::Error && chars_of(self.build_error.as_str()).len() > 0
    }

    /// Closing the build-failure window forgets its message.
    pub fn dismiss_build_error(&mut self)
        ensures
            final(self)@ == (EditorStateView { build_error: Seq::empty(), ..old(self)@ }),
            final(self).asset == old(self).asset,
            final(self).prefab == old(self).prefab,
    {
        self.build_error = String::new();
    }

    /// The status bar's counts of the game's objects and instances, each
    /// shown only when not zero.
    pub fn status_counts(&self) -> (r: (Option<String>, Option<String>))
        requires
            self.tab_group_state matches Some(g) ==> instances_size(g@) <= usize::MAX,
        ensures
            match self.tab_group_state {
                Some(g) => {
                    &&& (instances_size(g@) > 0 ==> (r.0 matches Some(t)
                        && t@ == nat_decimal(instances_size(g@)) + " objects"@))
                    &&& (instances_size(g@) == 0 ==> r.0 is None)
                    &&& (g@.len() > 0 ==> (r.1 matches Some(t)
                        && t@ == nat_decimal(g@.len()) + " instance"@ + if g@.len() == 1 { ""@ } else { "s"@ }))
                    &&& (g@.len() == 0 ==> r.1 is None)
                },
                None => r.0 is None && r.1 is None,
            },
    {
        match &self.tab_group_state {
            Some(g) => {
                let nodes = total_object_count(g);
                let objects = if nodes > 0 { Some(object_count_label(nodes)) } else { None };
                let instances = if g.len() > 0 { Some(instance_count_label(g.len())) } else { None };
                (objects, instances)
            },
            None => (None, None),
        }
    }
}

/// What the play bar says of the game.
pub open spec fn play_bar_text(mode: EditorMode) -> Seq<char> {
    match mode {
        EditorMode::Playing => "\u{25CF} Playing"@,
        EditorMode::Paused => "\u{23F8} Paused"@,
        EditorMode::Stopped => "\u{25A0} Stopped"@,
    }
}

/// The play bar's word for the game's state.
pub fn play_bar_label(mode: EditorMode) -> (r: &'static str)
    ensures
        r@ == play_bar_text(mode),
{
    match mode {
        EditorMode::Playing => "\u{25CF} Playing",
        EditorMode::Paused => "\u{23F8} Paused",
        EditorMode::Stopped => "\u{25A0} Stopped",
    }
}

/// What the status bar says of the game.
pub open spec fn mode_text(mode: EditorMode) -> Seq<char> {
    match mode {
        EditorMode::Playing => "Playing"@,
        EditorMode::Paused => "\u{23F8} Paused"@,
        EditorMode::Stopped => "\u{25A0} Stopped"@,
    }
}

/// The status bar's word for the game's state.
pub fn mode_label(mode: EditorMode) -> (r: &'static str)
    ensures
        r@ == mode_text(mode),
{
    match mode {
        EditorMode::Playing => "Playing",
        EditorMode::Paused => "\u{23F8} Paused",
        EditorMode::Stopped => "\u{25A0} Stopped",
    }
}

/// The status bar's note on the build, if it has one: while compiling and
/// after a failure.
pub fn compile_badge(status: CompileStatus) -> (r: Option<&'static str>)
    ensures
        match status {
            CompileStatus::Compiling => r matches Some(t) && t@ == "Compiling\u{2026}"@,
            CompileStatus::Error => r matches Some(t) && t@ == "\u{2715} Compile error"@,
            _ => r is None,
        },
{
    match status {
        CompileStatus::Compiling => Some("Compiling\u{2026}"),
        CompileStatus::Error => Some("\u{2715} Compile error"),
        _ => None,
    }
}

/// `{n} instance` or `{n} instances`.
pub fn instance_count_label(n: usize) -> (r: String)
    ensures
        r@ == nat_decimal(n as nat) + " instance"@ + if n == 1 { ""@ } else { "s"@ },
{
    let digits = string_from_chars(&u64_decimal(n as u64));
    let a = concat(digits.as_str(), " instance");
    if n == 1 {
        let r = concat(a.as_str(), "");
        r
    } else {
        concat(a.as_str(), "s")
    }
}

/// What the pause button does to a mode, and the message it sends.
pub open spec fn pause_step(m: EditorMode) -> (EditorMode, Option<RunnerMessage>) {
    match m {
        EditorMode::Playing => (EditorMode::Paused, Some(RunnerMessage::Pause)),
        EditorMode::Paused => (EditorMode::Playing, Some(RunnerMessage::Resume)),
        EditorMode::Stopped => (EditorMode::Stopped, None),
    }
}

/// The pause button twice gives back the mode it started from; a stopped
/// game sends nothing and does not move.
pub proof fn lemma_pause_twice(m: EditorMode)
    ensures
        pause_step(pause_step(m).0).0 == m,
        m == EditorMode::Stopped ==> pause_step(m) == (EditorMode::Stopped, None::<RunnerMessage>),
{
}

/// The console never holds more than `MAX_LOG_LINES` lines, and the line
/// just appended is always its last one.
pub proof fn lemma_console_bounded(logs: Seq<LogLineView>, line: LogLineView)
    ensures
        logs_after_push(logs, line).len() <= MAX_LOG_LINES || logs_after_push(logs, line).len() == logs.len() + 1
            && logs.len() < MAX_LOG_LINES,
        logs.len() <= MAX_LOG_LINES ==> logs_after_push(logs, line).len() <= MAX_LOG_LINES,
        logs_after_push(logs, line).last() == line,
{
}

} // verus!
