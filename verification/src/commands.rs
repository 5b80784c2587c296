//! What the web front end's commands decide: playback transitions, the
//! compile status it reads back, and the facet manifest types it receives.
use vstd::prelude::*;
use crate::runner::RunnerMessage;
use crate::state::{CompileStatus, EditorMode, pause_step};

verus! {

// ─── facet manifest as the front end receives it ───────────────────────────

/// The value kind of a facet field.
#[derive(Debug)]
pub enum EntryTypes {
    Asset(String),
    Float,
    Int,
    Bool,
    Vector2,
    Vector3,
    Vector4,
}

/// One field of a facet.
#[derive(Debug)]
pub struct FacetManifestEntryField {
    pub name: String,
    pub data: EntryTypes,
}

/// One facet (component type).
#[derive(Debug)]
pub struct FacetManifestEntry {
    pub name: String,
    pub data: Vec<FacetManifestEntryField>,
}

/// The whole facet manifest.
#[derive(Debug)]
pub struct FacetManifest {
    pub manifest: Vec<FacetManifestEntry>,
}

// ─── playback ──────────────────────────────────────────────────────────────

/// The play button: refused without a loaded project; otherwise the game
/// starts playing and the runner is told to start.
pub fn press_play_start(has_project: bool) -> (r: Result<(EditorMode, RunnerMessage), String>)
    ensures
        has_project <==> r is Ok,
        r matches Ok(x) ==> x == (EditorMode::Playing, RunnerMessage::Start),
        r matches Err(e) ==> e@ == "No project"@,
{
    if !has_project {
        return Err("No project".to_string());
    }
    Ok((EditorMode::Playing, RunnerMessage::Start))
}

/// The pause button: a playing game pauses, a paused one resumes (with the
/// message for the runner); a stopped one stays stopped.
pub fn press_pause(mode: EditorMode) -> (r: (EditorMode, Option<RunnerMessage>))
    ensures
        r == pause_step(mode),
{
    match mode {
        EditorMode::Playing => (EditorMode::Paused, Some(RunnerMessage::Pause)),
        EditorMode::Paused => (EditorMode::Playing, Some(RunnerMessage::Resume)),
        EditorMode::Stopped => (EditorMode::Stopped, None),
    }
}

/// The stop button: the runner is told to stop and the game is stopped,
/// whatever it was doing.
pub fn press_stop(mode: EditorMode) -> (r: (EditorMode, RunnerMessage))
    ensures
        r == (EditorMode::Stopped, RunnerMessage::Stop),
{
    (EditorMode::Stopped, RunnerMessage::Stop)
}

/// The name under which the front end reads a compile status.
pub open spec fn compile_status_text(s: CompileStatus) -> Seq<char> {
    match s {
        CompileStatus::Idle => "idle"@,
        CompileStatus::Compiling => "compiling"@,
        CompileStatus::Success => "success"@,
        CompileStatus::Error => "error"@,
    }
}

/// `idle`, `compiling`, `success` or `error`.
pub fn get_compile_status(s: CompileStatus) -> (r: String)
    ensures
        r@ == compile_status_text(s),
{
    match s {
        CompileStatus::Idle => "idle".to_string(),
        CompileStatus::Compiling => "compiling".to_string(),
        CompileStatus::Success => "success".to_string(),
        CompileStatus::Error => "error".to_string(),
    }
}

} // verus!
