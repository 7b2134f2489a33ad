//! Undo and redo: snapshots of the editable document and the two stacks
//! that hold them.

use vstd::prelude::*;
use crate::project::{ProjectState, ProjectView, project_eq};

verus! {

/// What the undo/redo shortcuts ask for.
#[derive(Clone, Copy, Debug, PartialEq, Eq, Structural)]
pub enum HistoryAction {
    Undo,
    Redo,
}

/// Redo (Ctrl+Shift+Z or Ctrl+Y) wins over undo (Ctrl+Z).
pub open spec fn history_action_spec(redo_pressed: bool, undo_pressed: bool) -> Option<HistoryAction> {
    if redo_pressed {
        Some(HistoryAction::Redo)
    } else if undo_pressed {
        Some(HistoryAction::Undo)
    } else {
        None
    }
}

/// The history action for this frame, given whether a redo shortcut and
/// (checked only when no redo shortcut was) the undo shortcut were pressed.
pub fn history_action_from_shortcuts(redo_pressed: bool, undo_pressed: bool) -> (r: Option<HistoryAction>)
    ensures
        r == history_action_spec(redo_pressed, undo_pressed),
{
    if redo_pressed {
        return Some(HistoryAction::Redo);
    }
    if undo_pressed {
        return Some(HistoryAction::Undo);
    }
    None
}

/// The editable document at one moment: both projects and the diff-view flag.
#[derive(Debug)]
pub struct EditorSnapshot {
    pub project: ProjectState,
    pub secondary_project: Option<ProjectState>,
    pub diff_view_enabled: bool,
}

/// What a snapshot holds.
pub struct SnapshotView {
    pub project: ProjectView,
    pub secondary_project: Option<ProjectView>,
    pub diff_view_enabled: bool,
}

/// The view of an optional project.
pub open spec fn opt_project_view(p: Option<ProjectState>) -> Option<ProjectView> {
    match p {
        Some(x) => Some(x@),
        None => None,
    }
}

impl View for EditorSnapshot {
    type V = SnapshotView;

    open spec fn view(&self) -> SnapshotView {
        SnapshotView {
            project: self.project@,
            secondary_project: opt_project_view(self.secondary_project),
            diff_view_enabled: self.diff_view_enabled,
        }
    }
}

/// The views of a stack of snapshots, bottom first.
pub open spec fn snapshots_view(s: Seq<EditorSnapshot>) -> Seq<SnapshotView> {
    s.map_values(|x: EditorSnapshot| x@)
}

/// The most snapshots the undo stack keeps.
pub const MAX_UNDO_SNAPSHOTS: usize = 200;

/// A copy of an optional project.
pub fn copy_opt_project(p: &Option<ProjectState>) -> (r: Option<ProjectState>)
    ensures
        opt_project_view(r) == opt_project_view(*p),
{
    match p {
        Some(x) => Some(x.copy()),
        None => None,
    }
}

/// Whether two optional projects hold the same document.
pub fn opt_project_eq(a: &Option<ProjectState>, b: &Option<ProjectState>) -> (r: bool)
    ensures
        r == (opt_project_view(*a) == opt_project_view(*b)),
{
    match (a, b) {
        (Some(x), Some(y)) => project_eq(x, y),
        (None, None) => true,
        _ => false,
    }
}

/// Whether two snapshots hold the same document.
pub fn snapshot_eq(a: &EditorSnapshot, b: &EditorSnapshot) -> (r: bool)
    ensures
        r == (a@ == b@),
{
    a.diff_view_enabled == b.diff_view_enabled && project_eq(&a.project, &b.project)
        && opt_project_eq(&a.secondary_project, &b.secondary_project)
}

/// The undo and redo stacks.
pub struct History {
    pub undo_stack: Vec<EditorSnapshot>,
    pub redo_stack: Vec<EditorSnapshot>,
}

/// What a history holds: the undo and redo stacks, oldest first.
pub struct HistoryView {
    pub undo: Seq<SnapshotView>,
    pub redo: Seq<SnapshotView>,
}

impl View for History {
    type V = HistoryView;

    open spec fn view(&self) -> HistoryView {
        HistoryView {
            undo: snapshots_view(self.undo_stack@),
            redo: snapshots_view(self.redo_stack@),
        }
    }
}

/// The history after recording `before` when the document now reads
/// `current`: unchanged when they are equal; otherwise `before` is pushed on
/// the undo stack (keeping its newest 200 entries) and the redo stack is
/// emptied.
pub open spec fn capture_spec(h: HistoryView, before: SnapshotView, current: SnapshotView) -> HistoryView {
    if before == current {
        h
    } else {
        let pushed = h.undo.push(before);
        HistoryView {
            undo: if pushed.len() > 200 {
                pushed.drop_first()
            } else {
                pushed
            },
            redo: Seq::empty(),
        }
    }
}

/// The document and history after an undo: the newest undo step becomes the
/// document and the document goes on the redo stack; nothing changes when
/// there is no undo step.
pub open spec fn undo_spec(doc: SnapshotView, h: HistoryView) -> (SnapshotView, HistoryView) {
    if h.undo.len() == 0 {
        (doc, h)
    } else {
        (h.undo.last(), HistoryView { undo: h.undo.drop_last(), redo: h.redo.push(doc) })
    }
}

/// The document and history after a redo: the newest redo step becomes the
/// document and the document goes on the undo stack; nothing changes when
/// there is no redo step.
pub open spec fn redo_spec(doc: SnapshotView, h: HistoryView) -> (SnapshotView, HistoryView) {
    if h.redo.len() == 0 {
        (doc, h)
    } else {
        (h.redo.last(), HistoryView { undo: h.undo.push(doc), redo: h.redo.drop_last() })
    }
}

impl History {
    /// An empty history.
    pub fn new() -> (h: History)
        ensures
            h@.undo.len() == 0,
            h@.redo.len() == 0,
    {
        History { undo_stack: Vec::new(), redo_stack: Vec::new() }
    }

    /// Forgets all undo and redo steps.
    pub fn clear(&mut self)
        ensures
            final(self)@.undo.len() == 0,
            final(self)@.redo.len() == 0,
    {
        self.undo_stack.clear();
        self.redo_stack.clear();
    }

    /// Records `before` as an undo step when the document has changed since
    /// then (when `current` differs from it).
    pub fn capture_if_changed(&mut self, before: EditorSnapshot, current: &EditorSnapshot)
        ensures
            final(self)@ == capture_spec(old(self)@, before@, current@),
    {
        if !snapshot_eq(&before, current) {
            let ghost old_undo = snapshots_view(self.undo_stack@);
            let ghost b = before@;
            self.undo_stack.push(before);
            proof {
                assert(snapshots_view(self.undo_stack@) =~= old_undo.push(b));
            }
            if self.undo_stack.len() > MAX_UNDO_SNAPSHOTS {
                let ghost pushed = snapshots_view(self.undo_stack@);
                let _dropped = self.undo_stack.remove(0);
                proof {
                    assert(snapshots_view(self.undo_stack@) =~= pushed.drop_first());
                }
            }
            self.redo_stack.clear();
            proof {
                assert(snapshots_view(self.redo_stack@) =~= Seq::<SnapshotView>::empty());
            }
        }
    }
}

/// After a change is recorded, undo brings back the document as it was
/// before the change.
pub proof fn law_undo_after_capture(h: HistoryView, before: SnapshotView, current: SnapshotView)
    requires
        before != current,
    ensures
        undo_spec(current, capture_spec(h, before, current)).0 == before,
        undo_spec(current, capture_spec(h, before, current)).1.redo == seq![current],
{
    assert(seq![current] =~= Seq::<SnapshotView>::empty().push(current));
}

/// Redo undoes an undo, when there was something to undo.
pub proof fn law_redo_after_undo(doc: SnapshotView, h: HistoryView)
    requires
        h.undo.len() > 0,
    ensures
        redo_spec(undo_spec(doc, h).0, undo_spec(doc, h).1) == (doc, h),
{
    let u = undo_spec(doc, h);
    assert(u.1.undo.push(u.0) =~= h.undo);
    assert(u.1.redo.drop_last() =~= h.redo);
}

/// Undo undoes a redo, when there was something to redo.
pub proof fn law_undo_after_redo(doc: SnapshotView, h: HistoryView)
    requires
        h.redo.len() > 0,
    ensures
        undo_spec(redo_spec(doc, h).0, redo_spec(doc, h).1) == (doc, h),
{
    let r = redo_spec(doc, h);
    assert(r.1.redo.push(r.0) =~= h.redo);
    assert(r.1.undo.drop_last() =~= h.undo);
}

/// A frame in which the document did not change records nothing: the undo
/// and redo stacks stay as they were, so an undone step can still be redone
/// after such frames.
pub proof fn law_unchanged_frame_keeps_history(h: HistoryView, doc: SnapshotView)
    ensures
        capture_spec(h, doc, doc).undo == h.undo,
        capture_spec(h, doc, doc).redo == h.redo,
        h.undo.len() > 0 ==> ({
            let (d1, h1) = undo_spec(doc, h);
            redo_spec(d1, capture_spec(h1, d1, d1)) == (doc, h)
        }),
{
    if h.undo.len() > 0 {
        law_redo_after_undo(doc, h);
    }
}

/// The undo stack never grows beyond 200 steps.
pub proof fn law_undo_stack_bounded(h: HistoryView, before: SnapshotView, current: SnapshotView)
    requires
        h.undo.len() <= 200,
    ensures
        capture_spec(h, before, current).undo.len() <= 200,
        undo_spec(current, h).1.undo.len() <= 200,
{
}

} // verus!
