//! The game runner's decisions: how play/pause/stop messages move its
//! state, what each redraw does, and which files are game plugins. The
//! runner thread itself (GPU, windowing, the plugin) carries them out.
use vstd::prelude::*;
use crate::text::{chars_of, concat, last_index, rfind_char, starts_with, string_from_range, string_from_chars, str_eq, u64_decimal, nat_decimal, vec_starts_with};

verus! {

// ─── the windowed runner ───────────────────────────────────────────────────

/// Messages from the editor to the windowed game runner.
#[derive(Debug, Clone, Copy, PartialEq, Eq, Structural)]
pub enum GameMessage {
    Pause,
    Resume,
    Stop,
    Resize(u32, u32),
}

/// What the windowed runner keeps between frames.
#[derive(Debug, Clone, Copy, PartialEq, Eq, Structural)]
pub struct RunnerFlags {
    pub paused: bool,
    pub should_stop: bool,
    pub frame_counter: u32,
}

/// What one redraw of the windowed runner does.
#[derive(Debug, Clone, Copy, PartialEq, Eq, Structural)]
pub struct RedrawPlan {
    /// Close the game and leave the event loop (nothing else happens).
    pub exit: bool,
    /// Advance the game by one frame.
    pub refresh: bool,
    /// Read this frame back to the editor.
    pub capture: bool,
}

impl RunnerFlags {
    /// A runner that is neither paused nor stopping, before its first frame.
    pub fn new() -> (r: Self)
        ensures
            r == (RunnerFlags { paused: false, should_stop: false, frame_counter: 0 }),
    {
        RunnerFlags { paused: false, should_stop: false, frame_counter: 0 }
    }

    /// Takes one message; answers the size the game must be told of, for a
    /// resize.
    pub fn apply_message(&mut self, msg: GameMessage) -> (resize: Option<(u32, u32)>)
        ensures
            match msg {
                GameMessage::Pause => *final(self) == RunnerFlags { paused: true, ..*old(self) } && resize is None,
                GameMessage::Resume => *final(self) == RunnerFlags { paused: false, ..*old(self) } && resize is None,
                GameMessage::Stop => *final(self) == RunnerFlags { should_stop: true, ..*old(self) } && resize is None,
                GameMessage::Resize(w, h) => *final(self) == *old(self) && resize == Some((w, h)),
            },
    {
        match msg {
            GameMessage::Pause => {
                self.paused = true;
                None
            },
            GameMessage::Resume => {
                self.paused = false;
                None
            },
            GameMessage::Stop => {
                self.should_stop = true;
                None
            },
            GameMessage::Resize(w, h) => Some((w, h)),
        }
    }

    /// The window asked to close: the runner stops at its next chance.
    pub fn close_requested(&mut self)
        ensures
            *final(self) == (RunnerFlags { should_stop: true, ..*old(self) }),
    {
        self.should_stop = true;
    }

    /// Plans one redraw: a stopping runner only exits; otherwise the game
    /// advances unless paused, the frame counter moves on (wrapping), and
    /// every second frame is read back.
    pub fn on_redraw(&mut self) -> (plan: RedrawPlan)
        ensures
            old(self).should_stop ==> plan == (RedrawPlan { exit: true, refresh: false, capture: false })
                && *final(self) == *old(self),
            !old(self).should_stop ==> {
                &&& final(self).frame_counter == (if old(self).frame_counter == u32::MAX { 0 } else { old(self).frame_counter + 1 })
                &&& final(self).paused == old(self).paused
                &&& final(self).should_stop == old(self).should_stop
                &&& plan == (RedrawPlan { exit: false, refresh: !old(self).paused, capture: final(self).frame_counter % 2 == 0 })
            },
    {
        if self.should_stop {
            return RedrawPlan { exit: true, refresh: false, capture: false };
        }
        let refresh = !self.paused;
        self.frame_counter = if self.frame_counter == u32::MAX { 0 } else { self.frame_counter + 1 };
        RedrawPlan { exit: false, refresh, capture: self.frame_counter % 2 == 0 }
    }
}

/// Of two redraws in a row of a running runner, exactly one is read back,
/// also when the counter wraps.
pub proof fn lemma_every_other_frame(c: u32)
    ensures
        ({
            let c1: u32 = if c == u32::MAX { 0 } else { (c + 1) as u32 };
            let c2: u32 = if c1 == u32::MAX { 0 } else { (c1 + 1) as u32 };
            (c1 % 2 == 0) != (c2 % 2 == 0)
        }),
{
}

// ─── the headless runner ───────────────────────────────────────────────────

/// Where the headless runner is.
#[derive(Debug, Clone, Copy, PartialEq, Eq, Structural)]
pub enum RunnerState {
    Stopped,
    Playing,
    Paused,
}

/// A message to the headless runner (an input event travels beside
/// `Input`).
#[derive(Debug, Clone, Copy, PartialEq, Eq, Structural)]
pub enum RunnerMessage {
    Start,
    Stop,
    Pause,
    Resume,
    Resize(u32, u32),
    Input,
}

/// What the headless runner must do for a message.
#[derive(Debug, Clone, Copy, PartialEq, Eq, Structural)]
pub enum RunnerWork {
    Nothing,
    /// Load the game plugin from the project's build and open its window.
    LoadGame,
    /// Drop the loaded game, if any.
    DropGame,
    /// Recreate the capture target at this size.
    ResizeCapture(u32, u32),
    /// Hand the input event to the loaded game, if any.
    ForwardInput,
}

/// The state after a message and the work it asks for.
pub open spec fn runner_step(s: RunnerState, m: RunnerMessage) -> (RunnerState, RunnerWork) {
    match m {
        RunnerMessage::Start => (RunnerState::Playing, RunnerWork::LoadGame),
        RunnerMessage::Stop => (RunnerState::Stopped, RunnerWork::DropGame),
        RunnerMessage::Pause => (RunnerState::Paused, RunnerWork::Nothing),
        RunnerMessage::Resume => (RunnerState::Playing, RunnerWork::Nothing),
        RunnerMessage::Resize(w, h) => (s, RunnerWork::ResizeCapture(w, h)),
        RunnerMessage::Input => (s, RunnerWork::ForwardInput),
    }
}

/// Takes one message of the headless runner.
pub fn process_message(state: RunnerState, msg: RunnerMessage) -> (r: (RunnerState, RunnerWork))
    ensures
        r == runner_step(state, msg),
{
    match msg {
        RunnerMessage::Start => (RunnerState::Playing, RunnerWork::LoadGame),
        RunnerMessage::Stop => (RunnerState::Stopped, RunnerWork::DropGame),
        RunnerMessage::Pause => (RunnerState::Paused, RunnerWork::Nothing),
        RunnerMessage::Resume => (RunnerState::Playing, RunnerWork::Nothing),
        RunnerMessage::Resize(w, h) => (state, RunnerWork::ResizeCapture(w, h)),
        RunnerMessage::Input => (state, RunnerWork::ForwardInput),
    }
}

/// Whether the loop advances and renders the game this turn (it sleeps
/// otherwise): only while playing.
pub fn renders(state: RunnerState) -> (r: bool)
    ensures
        r == (state == RunnerState::Playing),
{
    match state {
        RunnerState::Playing => true,
        _ => false,
    }
}

/// Pausing and resuming a playing runner leaves it playing; a stop ends in
/// `Stopped` from any state.
pub proof fn lemma_pause_resume(s: RunnerState)
    ensures
        runner_step(runner_step(RunnerState::Playing, RunnerMessage::Pause).0, RunnerMessage::Resume).0
            == RunnerState::Playing,
        runner_step(s, RunnerMessage::Stop).0 == RunnerState::Stopped,
{
}

// ─── plugin files ──────────────────────────────────────────────────────────

/// `Path::extension` of a file name: what follows its last `'.'`, unless
/// that dot is the first character (or there is none).
pub open spec fn extension_of(name: Seq<char>) -> Option<Seq<char>> {
    if name == ".."@ {
        None
    } else {
        match last_index(name, '.') {
            Some(i) => if i == 0 { None } else { Some(name.skip(i + 1)) },
            None => None,
        }
    }
}

/// A dynamic library that may hold the game: `.so`, `.dll` or `.dylib`.
pub open spec fn is_plugin_name(name: Seq<char>) -> bool {
    match extension_of(name) {
        Some(e) => e == "so"@ || e == "dll"@ || e == "dylib"@,
        None => false,
    }
}

/// Whether a file of the build folder is a game plugin library.
pub fn is_plugin_library(file_name: &str) -> (r: bool)
    ensures
        r == is_plugin_name(file_name@),
{
    let v = chars_of(file_name);
    proof {
        reveal_strlit("..");
    }
    if v.len() == 2 && v[0] == '.' && v[1] == '.' {
        assert(v@ =~= ".."@);
        return false;
    }
    assert(v@ != ".."@) by {
        if v@ == ".."@ {
            assert(v@.len() == 2 && v@[0] == '.' && v@[1] == '.');
        }
    }
    match rfind_char(&v, '.') {
        Some(i) => {
            if i == 0 {
                return false;
            }
            let n = v.len();
            let ext = string_from_range(&v, i + 1, n);
            assert(v@.subrange(i + 1, n as int) =~= v@.skip(i + 1));
            str_eq(ext.as_str(), "so") || str_eq(ext.as_str(), "dll") || str_eq(ext.as_str(), "dylib")
        },
        None => false,
    }
}

/// A copy of a plugin made by an earlier load (`app_*` in the data folder).
pub open spec fn is_plugin_copy_name(name: Seq<char>) -> bool {
    starts_with(name, "app_"@)
}

/// Whether a file of the data folder is an earlier copy of a plugin, to be
/// removed before the next load.
pub fn is_plugin_copy(file_name: &str) -> (r: bool)
    ensures
        r == is_plugin_copy_name(file_name@),
{
    vec_starts_with(&chars_of(file_name), &chars_of("app_"))
}

/// The name a freshly built plugin is copied under: `app_{millis}.{ext}`,
/// with the plugin's own extension (`so` when it has none).
pub open spec fn plugin_copy_name_of(millis: u64, plugin_name: Seq<char>) -> Seq<char> {
    "app_"@ + nat_decimal(millis as nat) + "."@ + match extension_of(plugin_name) {
        Some(e) => e,
        None => "so"@,
    }
}

fn extension(file_name: &str) -> (r: Option<String>)
    ensures
        match r {
            Some(e) => extension_of(file_name@) == Some(e@),
            None => extension_of(file_name@) is None,
        },
{
    let v = chars_of(file_name);
    proof {
        reveal_strlit("..");
    }
    if v.len() == 2 && v[0] == '.' && v[1] == '.' {
        assert(v@ =~= ".."@);
        return None;
    }
    assert(v@ != ".."@) by {
        if v@ == ".."@ {
            assert(v@.len() == 2 && v@[0] == '.' && v@[1] == '.');
        }
    }
    match rfind_char(&v, '.') {
        Some(i) => {
            if i == 0 {
                return None;
            }
            let n = v.len();
            assert(v@.subrange(i + 1, n as int) =~= v@.skip(i + 1));
            Some(string_from_range(&v, i + 1, n))
        },
        None => None,
    }
}

/// The file name for a fresh copy of the plugin `plugin_name`, stamped
/// with the current time in milliseconds.
pub fn plugin_copy_name(millis: u64, plugin_name: &str) -> (r: String)
    ensures
        r@ == plugin_copy_name_of(millis, plugin_name@),
{
    let digits = string_from_chars(&u64_decimal(millis));
    let a = concat("app_", digits.as_str());
    let b = concat(a.as_str(), ".");
    match extension(plugin_name) {
        Some(e) => concat(b.as_str(), e.as_str()),
        None => concat(b.as_str(), "so"),
    }
}

} // verus!
