//! Change detection and the output of each event handler.
use vstd::prelude::*;
use crate::record::Record;
use crate::reconcile::{models, reconcile, reconcile_view};
use crate::render::{decimal, emit_line, int_text, json_quoted, quote, view_text};

verus! {

/// The window-manager events that the workspace feeds react to.
#[derive(Clone, Copy, Debug, PartialEq, Eq, Structural)]
pub enum EventKind {
    ActiveWindowChanged,
    MonitorChanged,
    WorkspaceChanged,
    WorkspaceAdded,
    WorkspaceMoved,
    WorkspaceDestroyed,
}

/// An event that changes the set of workspaces, after which output is owed
/// whatever the active workspace is.
pub open spec fn is_structural(k: EventKind) -> bool {
    !(k is ActiveWindowChanged || k is MonitorChanged)
}

impl EventKind {
    /// Whether this event always leads to output.
    pub fn forces_emit(&self) -> (r: bool)
        ensures
            r == is_structural(*self),
    {
        match self {
            EventKind::ActiveWindowChanged | EventKind::MonitorChanged => false,
            _ => true,
        }
    }
}

/// Output is owed after a structural event, when nothing was emitted yet, or
/// when the active workspace is not the one last emitted.
pub open spec fn emit_owed(previous: Option<i32>, current: i32, kind: EventKind) -> bool {
    is_structural(kind) || previous != Some(current)
}

/// Whether an event with active workspace `current` calls for output, given
/// the active workspace of the last output.
pub fn should_emit(previous: Option<i32>, current: i32, kind: EventKind) -> (r: bool)
    ensures
        r == emit_owed(previous, current, kind),
{
    if kind.forces_emit() {
        true
    } else {
        match previous {
            Some(p) => p != current,
            None => true,
        }
    }
}

/// An event tied to the active workspace calls for output exactly when the
/// active workspace differs from the one last emitted (or none was).
pub proof fn lemma_identity_events_dedup(previous: Option<i32>, current: i32, kind: EventKind)
    requires
        !is_structural(kind),
    ensures
        emit_owed(previous, current, kind) == (previous != Some(current)),
        emit_owed(Some(current), current, kind) == false,
{
}

/// A structural event calls for output whatever the previous and current
/// active workspaces are.
pub proof fn lemma_structural_always_emits(previous: Option<i32>, fetched: Option<i32>, kind: EventKind)
    requires
        is_structural(kind),
    ensures
        frame_owed(previous, kind, fetched),
        forall|current: i32| emit_owed(previous, current, kind),
{
}

/// What a handler prints, if anything, and the active workspace to remember
/// as last emitted: the one just printed for, or the previous one where
/// nothing was printed.
#[derive(Debug)]
pub struct Frame {
    pub line: Option<String>,
    pub keep: Option<i32>,
}

/// The state a frame hands on: unchanged where nothing is printed, the active
/// workspace printed for otherwise.
pub open spec fn keeps_state(r: Frame, previous: Option<i32>, fetched: Option<i32>) -> bool {
    &&& r.line is None ==> r.keep == previous
    &&& r.line is Some ==> r.keep == Some(active_or_zero(fetched))
}

/// The active workspace that a handler goes by: the one looked up, or 0
/// where the lookup failed.
pub open spec fn active_or_zero(fetched: Option<i32>) -> i32 {
    match fetched {
        Some(id) => id,
        None => 0,
    }
}

/// Output is owed where the lookup failed, and otherwise as `emit_owed` says.
pub open spec fn frame_owed(previous: Option<i32>, kind: EventKind, fetched: Option<i32>) -> bool {
    match fetched {
        Some(id) => emit_owed(previous, id, kind),
        None => true,
    }
}

/// The models of an optional template.
pub open spec fn template_models(t: Option<&Vec<Record>>) -> Option<Seq<crate::record::RecordModel>> {
    match t {
        Some(v) => Some(models(v@)),
        None => None,
    }
}

/// The handler of a workspace-list feed: given the active workspace of the
/// last output, the event, the active workspace looked up now, the live
/// snapshot and the optional template, the JSON line to print and the active
/// workspace to keep. An empty view prints nothing and changes no state.
pub fn workspaces_frame(
    previous: Option<i32>,
    kind: EventKind,
    fetched_active: Option<i32>,
    live: &Vec<Record>,
    template: Option<&Vec<Record>>,
) -> (r: Frame)
    ensures
        keeps_state(r, previous, fetched_active),
        ({
            let v = reconcile_view(models(live@), template_models(template), active_or_zero(fetched_active) as i64);
            if frame_owed(previous, kind, fetched_active) && v.len() > 0 {
                r.line matches Some(s) && s@ == view_text(v)
            } else {
                r.line is None
            }
        }),
{
    let (id, owed) = match fetched_active {
        Some(id) => (id, should_emit(previous, id, kind)),
        None => (0i32, true),
    };
    if owed {
        let view = reconcile(live, template, id as i64);
        match emit_line(&view) {
            Some(text) => Frame { line: Some(text), keep: Some(id) },
            None => Frame { line: None, keep: previous },
        }
    } else {
        Frame { line: None, keep: previous }
    }
}

/// An empty live snapshot in live mode reconciles to an empty view, so the
/// workspace-list handler prints nothing for it.
pub proof fn lemma_empty_live_view(active_id: i64)
    ensures
        reconcile_view(Seq::empty(), None, active_id).len() == 0,
{
    crate::reconcile::lemma_live_sorted(Seq::empty(), active_id);
}

/// The handler of the active-workspace feed: the bare identifier of the
/// active workspace when output is owed, and `0` where the lookup failed.
pub fn active_workspace_frame(previous: Option<i32>, kind: EventKind, fetched_active: Option<i32>) -> (r: Frame)
    ensures
        keeps_state(r, previous, fetched_active),
        if frame_owed(previous, kind, fetched_active) {
            r.line matches Some(s) && s@ == decimal(active_or_zero(fetched_active) as int)
        } else {
            r.line is None
        },
{
    match fetched_active {
        Some(id) => {
            if should_emit(previous, id, kind) {
                Frame { line: Some(int_text(id as i64)), keep: Some(id) }
            } else {
                Frame { line: None, keep: previous }
            }
        },
        None => Frame { line: Some(int_text(0)), keep: Some(0) },
    }
}

/// The name a submap is shown under: `default` for the empty name.
pub open spec fn submap_name(name: Seq<char>) -> Seq<char> {
    if name.len() == 0 {
        "default"@
    } else {
        name
    }
}

/// The JSON object `{"name":...}` printed when the submap changes.
pub open spec fn submap_text(name: Seq<char>) -> Seq<char> {
    seq!['{'] + json_quoted("name"@) + seq![':'] + json_quoted(submap_name(name)) + seq!['}']
}

/// The line printed for a change to the submap `name`.
pub fn submap_line(name: &String) -> (r: String)
    ensures
        r@ == submap_text(name@),
{
    let shown = if name.as_str().unicode_len() == 0 {
        String::from_str("default")
    } else {
        name.clone()
    };
    proof {
        reveal_strlit("{");
        reveal_strlit("}");
        reveal_strlit(":");
    }
    let mut out = String::from_str("{");
    let key = quote(&String::from_str("name"));
    out.append(key.as_str());
    out.append(":");
    let value = quote(&shown);
    out.append(value.as_str());
    out.append("}");
    assert(out@ =~= submap_text(name@));
    out
}

} // verus!
