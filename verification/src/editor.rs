//! The editor's state: the two projects, the diff view, the focused line,
//! the undo history and the DeepL settings, with the operations the user
//! triggers on them.

use vstd::prelude::*;
use crate::history::{
    EditorSnapshot, History, HistoryAction, HistoryView, SnapshotView, capture_spec,
    copy_opt_project, opt_project_view, redo_spec, undo_spec,
};
use crate::line_edit::{
    LineWidgetAction, LineWidgetFocus, PaneSide, is_split_line, merge_with_previous_in,
    merge_with_previous_spec, split_line_at_in,
};
use crate::project::{LineView, ProjectState, ProjectView, SubtitleLine, lines_view};
use crate::text::{chars_of, string_from_chars, str_to_uppercase, to_uppercase_spec, trim_chars, trim_spec};
use crate::translation::{
    GlossaryEntry, build_translation_context_from_lines, empty_glossary_message, entries_from_pairs, entries_view,
    glossary_entries_to_tsv, replace_char_range, replace_spec, substring_by_char_range,
    substring_spec, translation_context_spec, tsv_lines, word_anchor, word_span_at_char,
    is_word_span,
};
use crate::text::join_spec;

verus! {

/// The alternatives window: the selected fragment of a line and the
/// rephrasings found for it.
#[derive(Clone, Debug)]
pub struct AlternativesState {
    pub pane: PaneSide,
    pub line_index: usize,
    pub start: usize,
    pub end: usize,
    pub selected_text: String,
    pub query: String,
    pub items: Vec<String>,
    pub open: bool,
}

/// The DeepL settings and windows.
#[derive(Clone, Debug)]
pub struct DeepLUiState {
    pub api_key: String,
    pub use_free_api: bool,
    pub translation_mode: bool,
    pub translation_context_radius: u8,
    pub translation_batch_size: u16,
    pub source_lang: String,
    pub target_lang: String,
    pub glossary_name: String,
    pub glossary_id: Option<String>,
    pub glossary_entries: Vec<GlossaryEntry>,
    pub glossary_window_open: bool,
    pub alternatives: Option<AlternativesState>,
}

/// The number of neighbouring lines sent as context by default.
pub fn default_translation_context_radius() -> (r: u8)
    ensures
        r == 2,
{
    2
}

/// The number of lines a batch translation covers by default.
pub fn default_translation_batch_size() -> (r: u16)
    ensures
        r == 20,
{
    20
}

/// The settings of a fresh editor: the free API, no key, target language
/// `RU`, no source language, two lines of context, batches of twenty, no
/// glossary, no window open, translation mode off.
pub open spec fn is_default_deepl_state(s: DeepLUiState) -> bool {
    &&& s.api_key@.len() == 0
    &&& s.use_free_api
    &&& !s.translation_mode
    &&& s.translation_context_radius == 2
    &&& s.translation_batch_size == 20
    &&& s.source_lang@.len() == 0
    &&& s.target_lang@ == "RU"@
    &&& s.glossary_name@ == "Subtitle Glossary"@
    &&& s.glossary_id is None
    &&& s.glossary_entries@.len() == 0
    &&& !s.glossary_window_open
    &&& s.alternatives is None
}

impl Default for DeepLUiState {
    fn default() -> (s: DeepLUiState)
        ensures
            is_default_deepl_state(s),
    {
        DeepLUiState {
            api_key: String::new(),
            use_free_api: true,
            translation_mode: false,
            translation_context_radius: default_translation_context_radius(),
            translation_batch_size: default_translation_batch_size(),
            source_lang: String::new(),
            target_lang: crate::text::string_from_chars(&crate::text::chars_of("RU")),
            glossary_name: crate::text::string_from_chars(&crate::text::chars_of("Subtitle Glossary")),
            glossary_id: None,
            glossary_entries: Vec::new(),
            glossary_window_open: false,
            alternatives: None,
        }
    }
}

/// Everything the editor edits and remembers, apart from window geometry.
pub struct Editor {
    pub project: ProjectState,
    pub secondary_project: Option<ProjectState>,
    pub diff_view_enabled: bool,
    pub active_focus: Option<LineWidgetFocus>,
    pub deepl_state: DeepLUiState,
    pub history: History,
}

/// Whether the pane other than `pane` is as it was.
pub open spec fn other_pane_kept(after: &Editor, before: &Editor, pane: PaneSide) -> bool {
    match pane {
        PaneSide::Primary => opt_project_view(after.secondary_project) == opt_project_view(before.secondary_project),
        PaneSide::Secondary => after.project@ == before.project@,
    }
}

/// `p` with its lines replaced.
pub open spec fn with_lines(p: ProjectView, lines: Seq<LineView>) -> ProjectView {
    ProjectView { lines, file_type: p.file_type, file_path: p.file_path }
}

/// The project a translation is written into: one empty line per source
/// line, with the source line's time range, the same format and no path.
pub open spec fn translation_project_spec(source: ProjectView) -> ProjectView {
    ProjectView {
        lines: source.lines.map_values(|l: LineView| LineView { text: seq![], timecode: l.timecode }),
        file_type: source.file_type,
        file_path: None,
    }
}

/// The translation project after making it fit the source again: built
/// afresh when missing; rebuilt, keeping the texts of the lines both have,
/// when its length differs from the source's; kept as it is otherwise.
pub open spec fn ensured_translation_spec(source: ProjectView, secondary: Option<ProjectView>) -> ProjectView {
    match secondary {
        None => translation_project_spec(source),
        Some(s) => if s.lines.len() != source.lines.len() {
            with_lines(
                translation_project_spec(source),
                Seq::new(
                    source.lines.len(),
                    |i: int|
                        LineView {
                            text: if i < s.lines.len() {
                                s.lines[i].text
                            } else {
                                seq![]
                            },
                            timecode: source.lines[i].timecode,
                        },
                ),
            )
        } else {
            s
        },
    }
}

/// `target` with the time ranges of its first lines taken, index by index,
/// from `source`.
pub open spec fn copy_timecodes_spec(source: Seq<LineView>, target: Seq<LineView>) -> Seq<LineView> {
    Seq::new(
        target.len(),
        |i: int|
            if i < source.len() {
                LineView { text: target[i].text, timecode: source[i].timecode }
            } else {
                target[i]
            },
    )
}

/// Copying the time ranges from the left pane to the right one and back
/// leaves the left pane as it was, and copying them twice changes nothing
/// more than copying them once.
pub proof fn law_timecodes_copied_back(left: Seq<LineView>, right: Seq<LineView>)
    ensures
        copy_timecodes_spec(copy_timecodes_spec(left, right), left) == left,
        copy_timecodes_spec(left, copy_timecodes_spec(left, right)) == copy_timecodes_spec(left, right),
{
    let copied = copy_timecodes_spec(left, right);
    assert(copy_timecodes_spec(copied, left) =~= left);
    assert(copy_timecodes_spec(left, copied) =~= copied);
}

/// Copies the time ranges of `source`'s lines onto `target`'s, index by
/// index, as far as both have lines.
pub fn copy_timecodes_by_index(source: &ProjectState, target: &mut ProjectState)
    ensures
        final(target)@ == with_lines(old(target)@, copy_timecodes_spec(source@.lines, old(target)@.lines)),
{
    let count = if source.lines.len() < target.lines.len() {
        source.lines.len()
    } else {
        target.lines.len()
    };
    let ghost old_lines = lines_view(target.lines@);
    let mut index: usize = 0;
    while index < count
        invariant
            count <= source.lines.len(),
            count <= target.lines.len(),
            target.lines.len() == old_lines.len(),
            target.file_type == old(target).file_type,
            target.file_path == old(target).file_path,
            index <= count,
            forall|i: int|
                0 <= i < old_lines.len() ==> (#[trigger] target.lines@[i])@ == (if i < index {
                    LineView { text: old_lines[i].text, timecode: source.lines@[i].timecode }
                } else {
                    old_lines[i]
                }),
        decreases count - index,
    {
        let line = SubtitleLine { text: target.lines[index].text.clone(), timecode: source.lines[index].timecode };
        target.lines.set(index, line);
        index = index + 1;
    }
    proof {
        assert(lines_view(target.lines@) =~= copy_timecodes_spec(lines_view(source.lines@), old_lines));
    }
}

/// A translation project for `source`.
pub fn build_translation_project(source: &ProjectState) -> (p: ProjectState)
    ensures
        p@ == translation_project_spec(source@),
{
    let mut lines: Vec<SubtitleLine> = Vec::new();
    let mut i: usize = 0;
    while i < source.lines.len()
        invariant
            i <= source.lines.len(),
            lines@.len() == i,
            forall|j: int|
                0 <= j < i ==> (#[trigger] lines@[j])@ == (LineView { text: seq![], timecode: source.lines@[j].timecode }),
        decreases source.lines.len() - i,
    {
        lines.push(SubtitleLine { text: String::new(), timecode: source.lines[i].timecode });
        i = i + 1;
    }
    let p = ProjectState { lines, file_type: source.file_type, file_path: None };
    proof {
        assert(p@.lines =~= translation_project_spec(source@).lines);
    }
    p
}

impl Editor {
    /// The editable document, as a snapshot would record it.
    pub open spec fn doc_view(&self) -> SnapshotView {
        SnapshotView {
            project: self.project@,
            secondary_project: opt_project_view(self.secondary_project),
            diff_view_enabled: self.diff_view_enabled,
        }
    }

    /// The lines of a pane, when the pane has a project.
    pub open spec fn pane_view(&self, pane: PaneSide) -> Option<ProjectView> {
        match pane {
            PaneSide::Primary => Some(self.project@),
            PaneSide::Secondary => opt_project_view(self.secondary_project),
        }
    }

    /// Whether everything but the two projects is as in `other`.
    pub open spec fn same_settings(&self, other: &Editor) -> bool {
        &&& self.diff_view_enabled == other.diff_view_enabled
        &&& self.active_focus == other.active_focus
        &&& self.deepl_state == other.deepl_state
        &&& self.history@ == other.history@
    }

    /// A fresh editor: empty project, no second pane, no history, default settings.
    pub fn new() -> (e: Editor)
        ensures
            e.project@.lines.len() == 0,
            e.project.file_type is None,
            e.project.file_path is None,
            is_default_deepl_state(e.deepl_state),
            e.secondary_project is None,
            !e.diff_view_enabled,
            e.active_focus is None,
            e.history@.undo.len() == 0 && e.history@.redo.len() == 0,
    {
        Editor {
            project: ProjectState::default(),
            secondary_project: None,
            diff_view_enabled: false,
            active_focus: None,
            deepl_state: DeepLUiState::default(),
            history: History::new(),
        }
    }

    /// A snapshot of the document.
    pub fn current_snapshot(&self) -> (s: EditorSnapshot)
        ensures
            s@ == self.doc_view(),
    {
        EditorSnapshot {
            project: self.project.copy(),
            secondary_project: copy_opt_project(&self.secondary_project),
            diff_view_enabled: self.diff_view_enabled,
        }
    }

    /// Records `before` as an undo step if the document has changed since.
    pub fn capture_history_if_project_changed(&mut self, before: EditorSnapshot)
        ensures
            final(self).history@ == capture_spec(old(self).history@, before@, old(self).doc_view()),
            final(self).doc_view() == old(self).doc_view(),
            final(self).active_focus == old(self).active_focus,
            final(self).deepl_state == old(self).deepl_state,
    {
        let current = self.current_snapshot();
        self.history.capture_if_changed(before, &current);
    }

    /// Ends a frame of the editor: records the change since `before` in the
    /// history, unless the frame's own commands (undo, redo, loading,
    /// translation) already took care of the history.
    pub fn finish_frame(&mut self, before: EditorSnapshot, history_handled: bool)
        ensures
            final(self).history@ == if history_handled {
                old(self).history@
            } else {
                capture_spec(old(self).history@, before@, old(self).doc_view())
            },
            final(self).doc_view() == old(self).doc_view(),
            final(self).active_focus == old(self).active_focus,
            final(self).deepl_state == old(self).deepl_state,
    {
        if !history_handled {
            self.capture_history_if_project_changed(before);
        }
    }

    /// Keeps the diff view open while translation mode is on (the right pane
    /// is the translation).
    pub fn keep_diff_view_for_translation(&mut self)
        ensures
            final(self).diff_view_enabled == (old(self).diff_view_enabled || old(self).deepl_state.translation_mode),
            final(self).project@ == old(self).project@,
            opt_project_view(final(self).secondary_project) == opt_project_view(old(self).secondary_project),
            final(self).active_focus == old(self).active_focus,
            final(self).deepl_state == old(self).deepl_state,
            final(self).history@ == old(self).history@,
    {
        if self.deepl_state.translation_mode {
            self.diff_view_enabled = true;
        }
    }

    /// Brings back the newest undo step.
    pub fn undo(&mut self)
        ensures
            (final(self).doc_view(), final(self).history@) == undo_spec(old(self).doc_view(), old(self).history@),
            final(self).active_focus == old(self).active_focus,
            final(self).deepl_state == old(self).deepl_state,
    {
        let ghost old_undo = self.history@.undo;
        if let Some(previous) = self.history.undo_stack.pop() {
            let current = self.current_snapshot();
            let ghost cur_view = current@;
            self.project = previous.project;
            self.secondary_project = previous.secondary_project;
            self.diff_view_enabled = previous.diff_view_enabled;
            self.history.redo_stack.push(current);
            proof {
                assert(self.history@.undo =~= old_undo.drop_last());
                assert(self.history@.redo =~= old(self).history@.redo.push(cur_view));
            }
        }
    }

    /// Brings back the newest redo step.
    pub fn redo(&mut self)
        ensures
            (final(self).doc_view(), final(self).history@) == redo_spec(old(self).doc_view(), old(self).history@),
            final(self).active_focus == old(self).active_focus,
            final(self).deepl_state == old(self).deepl_state,
    {
        let ghost old_redo = self.history@.redo;
        if let Some(next) = self.history.redo_stack.pop() {
            let current = self.current_snapshot();
            let ghost cur_view = current@;
            self.project = next.project;
            self.secondary_project = next.secondary_project;
            self.diff_view_enabled = next.diff_view_enabled;
            self.history.undo_stack.push(current);
            proof {
                assert(self.history@.redo =~= old_redo.drop_last());
                assert(self.history@.undo =~= old(self).history@.undo.push(cur_view));
            }
        }
    }

    /// Forgets the undo history.
    pub fn clear_history(&mut self)
        ensures
            final(self).history@.undo.len() == 0,
            final(self).history@.redo.len() == 0,
            final(self).doc_view() == old(self).doc_view(),
            final(self).active_focus == old(self).active_focus,
            final(self).deepl_state == old(self).deepl_state,
    {
        self.history.clear();
    }

    /// Performs an undo or a redo.
    pub fn apply_history_action(&mut self, action: HistoryAction)
        ensures
            (final(self).doc_view(), final(self).history@) == match action {
                HistoryAction::Undo => undo_spec(old(self).doc_view(), old(self).history@),
                HistoryAction::Redo => redo_spec(old(self).doc_view(), old(self).history@),
            },
            final(self).active_focus == old(self).active_focus,
            final(self).deepl_state == old(self).deepl_state,
    {
        match action {
            HistoryAction::Undo => self.undo(),
            HistoryAction::Redo => self.redo(),
        }
    }

    /// Merges line `index` of a pane into the line before it.
    pub fn merge_with_previous(&mut self, pane: PaneSide, index: usize)
        ensures
            final(self).same_settings(old(self)),
            match old(self).pane_view(pane) {
                None => final(self).doc_view() == old(self).doc_view(),
                Some(p) => final(self).pane_view(pane) == Some(
                    with_lines(p, merge_with_previous_spec(p.lines, index as int)),
                ) && match pane {
                    PaneSide::Primary => opt_project_view(final(self).secondary_project)
                        == opt_project_view(old(self).secondary_project),
                    PaneSide::Secondary => final(self).project@ == old(self).project@,
                },
            },
    {
        match pane {
            PaneSide::Primary => merge_with_previous_in(&mut self.project.lines, index),
            PaneSide::Secondary => match &mut self.secondary_project {
                Some(p) => merge_with_previous_in(&mut p.lines, index),
                None => {},
            },
        }
    }

    /// Splits line `index` of a pane at character `char_index`.
    pub fn split_line_at(&mut self, pane: PaneSide, index: usize, char_index: usize)
        ensures
            final(self).same_settings(old(self)),
            match old(self).pane_view(pane) {
                None => final(self).doc_view() == old(self).doc_view(),
                Some(p) => final(self).pane_view(pane) matches Some(q) && q.file_type == p.file_type
                    && q.file_path == p.file_path && is_split_line(
                    p.lines,
                    q.lines,
                    index as int,
                    char_index as int,
                ) && match pane {
                    PaneSide::Primary => opt_project_view(final(self).secondary_project)
                        == opt_project_view(old(self).secondary_project),
                    PaneSide::Secondary => final(self).project@ == old(self).project@,
                },
            },
    {
        match pane {
            PaneSide::Primary => split_line_at_in(&mut self.project.lines, index, char_index),
            PaneSide::Secondary => match &mut self.secondary_project {
                Some(p) => split_line_at_in(&mut p.lines, index, char_index),
                None => {},
            },
        }
    }

    /// Carries out a split or merge asked for by a shortcut.
    pub fn apply_line_action(&mut self, action: LineWidgetAction)
        ensures
            final(self).same_settings(old(self)),
            match action {
                LineWidgetAction::MergeWithPrevious { pane, index } => match old(self).pane_view(pane) {
                    None => final(self).doc_view() == old(self).doc_view(),
                    Some(p) => final(self).pane_view(pane) == Some(
                        with_lines(p, merge_with_previous_spec(p.lines, index as int)),
                    ) && other_pane_kept(final(self), old(self), pane),
                },
                LineWidgetAction::SplitAtCursor { pane, index, char_index } => match old(self).pane_view(pane) {
                    None => final(self).doc_view() == old(self).doc_view(),
                    Some(p) => final(self).pane_view(pane) matches Some(q) && q.file_type == p.file_type
                        && q.file_path == p.file_path && is_split_line(
                        p.lines,
                        q.lines,
                        index as int,
                        char_index as int,
                    ) && other_pane_kept(final(self), old(self), pane),
                },
            },
    {
        match action {
            LineWidgetAction::SplitAtCursor { pane, index, char_index } => {
                self.split_line_at(pane, index, char_index);
            },
            LineWidgetAction::MergeWithPrevious { pane, index } => {
                self.merge_with_previous(pane, index);
            },
        }
    }

    /// Copies the left pane's time ranges onto the right pane's lines.
    pub fn apply_timecodes_primary_to_secondary(&mut self)
        ensures
            final(self).same_settings(old(self)),
            final(self).project@ == old(self).project@,
            opt_project_view(final(self).secondary_project) == match opt_project_view(old(self).secondary_project) {
                Some(s) => Some(with_lines(s, copy_timecodes_spec(old(self).project@.lines, s.lines))),
                None => None,
            },
    {
        match &mut self.secondary_project {
            Some(secondary) => copy_timecodes_by_index(&self.project, secondary),
            None => {},
        }
    }

    /// Copies the right pane's time ranges onto the left pane's lines.
    pub fn apply_timecodes_secondary_to_primary(&mut self)
        ensures
            final(self).same_settings(old(self)),
            opt_project_view(final(self).secondary_project) == opt_project_view(old(self).secondary_project),
            final(self).project@ == match opt_project_view(old(self).secondary_project) {
                Some(s) => with_lines(old(self).project@, copy_timecodes_spec(s.lines, old(self).project@.lines)),
                None => old(self).project@,
            },
    {
        match &self.secondary_project {
            Some(secondary) => copy_timecodes_by_index(secondary, &mut self.project),
            None => {},
        }
    }

    /// Replaces the right pane with a fresh translation project for the left one.
    pub fn reset_translation_project(&mut self)
        ensures
            final(self).same_settings(old(self)),
            final(self).project@ == old(self).project@,
            opt_project_view(final(self).secondary_project) == Some(translation_project_spec(old(self).project@)),
    {
        self.secondary_project = Some(build_translation_project(&self.project));
    }

    /// Makes the translation project fit the source again.
    pub fn ensure_translation_project_for_source(&mut self)
        ensures
            final(self).same_settings(old(self)),
            final(self).project@ == old(self).project@,
            opt_project_view(final(self).secondary_project) == Some(
                ensured_translation_spec(old(self).project@, opt_project_view(old(self).secondary_project)),
            ),
    {
        let source_len = self.project.lines.len();
        let rebuilt: Option<ProjectState> = match &self.secondary_project {
            None => Some(build_translation_project(&self.project)),
            Some(secondary) => if secondary.lines.len() != source_len {
                let mut rebuilt = build_translation_project(&self.project);
                let ghost base = lines_view(rebuilt.lines@);
                let ghost prev = lines_view(secondary.lines@);
                proof {
                    assert(base.len() == rebuilt.lines@.len());
                    assert(self.project@.lines.len() == self.project.lines@.len());
                }
                let n = if secondary.lines.len() < source_len {
                    secondary.lines.len()
                } else {
                    source_len
                };
                let mut i: usize = 0;
                while i < n
                    invariant
                        n <= secondary.lines.len(),
                        n <= source_len,
                        source_len == self.project.lines.len(),
                        rebuilt.lines.len() == source_len,
                        base.len() == source_len,
                        base == translation_project_spec(self.project@).lines,
                        rebuilt.file_type == self.project.file_type,
                        rebuilt.file_path is None,
                        prev == lines_view(secondary.lines@),
                        i <= n,
                        forall|j: int|
                            0 <= j < source_len ==> (#[trigger] rebuilt.lines@[j])@ == (if j < i {
                                LineView { text: prev[j].text, timecode: base[j].timecode }
                            } else {
                                base[j]
                            }),
                    decreases n - i,
                {
                    let line = SubtitleLine {
                        text: secondary.lines[i].text.clone(),
                        timecode: rebuilt.lines[i].timecode,
                    };
                    rebuilt.lines.set(i, line);
                    i = i + 1;
                }
                proof {
                    let goal = ensured_translation_spec(self.project@, opt_project_view(self.secondary_project));
                    assert(lines_view(rebuilt.lines@) =~= goal.lines);
                    assert(rebuilt@ == goal);
                }
                Some(rebuilt)
            } else {
                None
            },
        };
        if let Some(p) = rebuilt {
            self.secondary_project = Some(p);
        }
    }

    /// Turns translation mode on: the diff view opens and the translation
    /// project is made to fit the source.
    pub fn enable_translation_mode(&mut self)
        ensures
            final(self).deepl_state == (DeepLUiState { translation_mode: true, ..old(self).deepl_state }),
            final(self).diff_view_enabled,
            final(self).active_focus == old(self).active_focus,
            final(self).history@ == old(self).history@,
            final(self).project@ == old(self).project@,
            opt_project_view(final(self).secondary_project) == Some(
                ensured_translation_spec(old(self).project@, opt_project_view(old(self).secondary_project)),
            ),
    {
        self.deepl_state.translation_mode = true;
        self.diff_view_enabled = true;
        self.ensure_translation_project_for_source();
    }

    /// Installs a newly loaded left project; in translation mode the right
    /// pane becomes a fresh translation project for it.
    pub fn load_primary_project(&mut self, project: ProjectState)
        ensures
            final(self).project@ == project@,
            final(self).same_settings(old(self)),
            old(self).deepl_state.translation_mode ==> opt_project_view(final(self).secondary_project)
                == Some(translation_project_spec(project@)),
            !old(self).deepl_state.translation_mode ==> opt_project_view(final(self).secondary_project)
                == opt_project_view(old(self).secondary_project),
    {
        self.project = project;
        if self.deepl_state.translation_mode {
            self.reset_translation_project();
        }
    }

    /// Installs a newly loaded right project.
    pub fn load_secondary_project(&mut self, project: ProjectState)
        ensures
            opt_project_view(final(self).secondary_project) == Some(project@),
            final(self).project@ == old(self).project@,
            final(self).same_settings(old(self)),
    {
        self.secondary_project = Some(project);
    }

    /// Applies restored settings: in translation mode the diff view opens and
    /// the right pane becomes a fresh translation project.
    pub fn restore_translation_mode(&mut self)
        ensures
            final(self).project@ == old(self).project@,
            final(self).active_focus == old(self).active_focus,
            final(self).deepl_state == old(self).deepl_state,
            final(self).history@ == old(self).history@,
            old(self).deepl_state.translation_mode ==> final(self).diff_view_enabled && opt_project_view(
                final(self).secondary_project,
            ) == Some(translation_project_spec(old(self).project@)),
            !old(self).deepl_state.translation_mode ==> final(self).doc_view() == old(self).doc_view(),
    {
        if self.deepl_state.translation_mode {
            self.diff_view_enabled = true;
            self.reset_translation_project();
        }
    }
}


// ---------------------------------------------------------------------
// Translation jobs
// ---------------------------------------------------------------------

/// What a DeepL call needs from the settings.
pub struct TranslationSettings {
    /// The API key, trimmed.
    pub api_key: String,
    pub use_free_api: bool,
    /// The source language, trimmed and upper-cased, when one is set.
    pub source_lang: Option<String>,
    /// The target language, trimmed and upper-cased.
    pub target_lang: String,
    pub glossary_id: Option<String>,
}

/// One line to translate, with the context sent along.
pub struct LineRequest {
    pub text: String,
    pub context: Option<String>,
}

/// Which command a translation job serves.
#[derive(Clone, Copy, Debug, PartialEq, Eq, Structural)]
pub enum TranslationKind {
    FocusedLine,
    LineRange,
    WholeFile,
}

/// Where the translations of a job are written.
#[derive(Clone, Copy, Debug, PartialEq, Eq, Structural)]
pub enum TranslationTarget {
    /// The right pane, kept as the translation of the left one.
    TranslationProject,
    /// The pane the lines came from.
    Pane(PaneSide),
}

/// A planned translation: the lines to send, one request each, and where
/// their translations go (line `start` onwards of the target).
pub struct TranslationJob {
    pub settings: TranslationSettings,
    pub kind: TranslationKind,
    pub target: TranslationTarget,
    pub start: usize,
    pub requests: Vec<LineRequest>,
}

/// The view of an optional string.
pub open spec fn opt_chars(s: Option<String>) -> Option<Seq<char>> {
    match s {
        Some(x) => Some(x@),
        None => None,
    }
}

/// The requests for lines `start..end` (end capped at the length): each
/// line's text with its context.
pub open spec fn requests_spec(lines: Seq<LineView>, start: int, end: int, radius: int) -> Seq<(Seq<char>, Option<Seq<char>>)> {
    if lines.len() == 0 || start >= lines.len() || start >= end {
        seq![]
    } else {
        let e = if end < lines.len() {
            end
        } else {
            lines.len() as int
        };
        Seq::new(
            (e - start) as nat,
            |k: int| (lines[start + k].text, translation_context_spec(lines, start + k, radius)),
        )
    }
}

/// The views of the requests of a job.
pub open spec fn requests_view(r: Seq<LineRequest>) -> Seq<(Seq<char>, Option<Seq<char>>)> {
    r.map_values(|q: LineRequest| (q.text@, opt_chars(q.context)))
}

/// The requests for lines `start..end` of `lines`.
pub fn line_requests(lines: &Vec<SubtitleLine>, start: usize, end: usize, radius: usize) -> (r: Vec<LineRequest>)
    ensures
        requests_view(r@) == requests_spec(lines_view(lines@), start as int, end as int, radius as int),
{
    let mut out: Vec<LineRequest> = Vec::new();
    if lines.len() == 0 || start >= lines.len() || start >= end {
        proof {
            assert(requests_view(out@) =~= requests_spec(lines_view(lines@), start as int, end as int, radius as int));
        }
        return out;
    }
    let effective_end = if end < lines.len() {
        end
    } else {
        lines.len()
    };
    let ghost goal = requests_spec(lines_view(lines@), start as int, end as int, radius as int);
    let mut index = start;
    while index < effective_end
        invariant
            start <= index <= effective_end <= lines.len(),
            start < lines.len(),
            start < end,
            effective_end == (if end < lines.len() { end } else { lines.len() }),
            goal == requests_spec(lines_view(lines@), start as int, end as int, radius as int),
            out@.len() == index - start,
            forall|k: int| 0 <= k < out@.len() ==> ((#[trigger] out@[k]).text@, opt_chars(out@[k].context)) == goal[k],
        decreases effective_end - index,
    {
        let context = build_translation_context_from_lines(lines, index, radius);
        out.push(LineRequest { text: lines[index].text.clone(), context });
        index = index + 1;
    }
    proof {
        assert(requests_view(out@) =~= goal);
    }
    out
}

/// The lines with the texts of lines `start..` replaced by `texts`, as far as
/// there are lines.
pub open spec fn written_spec(lines: Seq<LineView>, start: int, texts: Seq<Seq<char>>) -> Seq<LineView> {
    Seq::new(
        lines.len(),
        |i: int|
            if start <= i < start + texts.len() {
                LineView { text: texts[i - start], timecode: lines[i].timecode }
            } else {
                lines[i]
            },
    )
}

/// Writes `texts` into lines `start..`, as far as there are lines.
pub fn write_texts(lines: &mut Vec<SubtitleLine>, start: usize, texts: &Vec<String>)
    ensures
        lines_view(final(lines)@) == written_spec(lines_view(old(lines)@), start as int, texts@.map_values(|t: String| t@)),
{
    let ghost old_lines = lines_view(lines@);
    let ghost tv = texts@.map_values(|t: String| t@);
    let mut k: usize = 0;
    while k < texts.len() && start < lines.len() && k < lines.len() - start
        invariant
            k <= texts.len(),
            lines.len() == old_lines.len(),
            tv == texts@.map_values(|t: String| t@),
            forall|i: int|
                0 <= i < old_lines.len() ==> (#[trigger] lines@[i])@ == (if start <= i < start + k {
                    LineView { text: tv[i - start], timecode: old_lines[i].timecode }
                } else {
                    old_lines[i]
                }),
        decreases texts.len() - k,
    {
        let line = SubtitleLine { text: texts[k].clone(), timecode: lines[start + k].timecode };
        lines.set(start + k, line);
        k = k + 1;
    }
    proof {
        assert(lines_view(lines@) =~= written_spec(old_lines, start as int, tv));
    }
}

/// The target language as sent: trimmed and upper-cased.
pub open spec fn target_lang_spec(st: DeepLUiState) -> Seq<char> {
    to_uppercase_spec(trim_spec(st.target_lang@))
}

/// The source language as sent, when one is set.
pub open spec fn source_lang_spec(st: DeepLUiState) -> Option<Seq<char>> {
    if trim_spec(st.source_lang@).len() == 0 {
        None
    } else {
        Some(to_uppercase_spec(trim_spec(st.source_lang@)))
    }
}

/// Whether no target language is set (it is blank).
pub open spec fn target_missing(st: DeepLUiState) -> bool {
    trim_spec(st.target_lang@).len() == 0
}

/// The error about the settings, if any: a missing target language, then a
/// missing API key.
pub open spec fn settings_error_spec(st: DeepLUiState) -> Option<Seq<char>> {
    if target_missing(st) {
        Some("Set target language (for example, RU, EN, DE)"@)
    } else if trim_spec(st.api_key@).len() == 0 {
        Some("Set DeepL API key"@)
    } else {
        None
    }
}

/// Whether `s` are the settings the state gives.
pub open spec fn settings_match(s: TranslationSettings, st: DeepLUiState) -> bool {
    &&& s.api_key@ == trim_spec(st.api_key@)
    &&& s.use_free_api == st.use_free_api
    &&& opt_chars(s.source_lang) == source_lang_spec(st)
    &&& s.target_lang@ == target_lang_spec(st)
    &&& opt_chars(s.glossary_id) == opt_chars(st.glossary_id)
}

/// Whether `r` is an error with exactly the message `m`.
pub open spec fn is_err_with<T>(r: Result<T, String>, m: Seq<char>) -> bool {
    r is Err && r->Err_0@ == m
}

fn err_text<T>(m: &str) -> (r: Result<T, String>)
    ensures
        is_err_with(r, m@),
{
    Err(string_from_chars(&chars_of(m)))
}

/// `lo + count` capped at `hi`.
pub open spec fn capped_end(lo: int, count: int, hi: int) -> int {
    if lo + count < hi {
        lo + count
    } else {
        hi
    }
}

/// A batch asks for every line it was asked for: planned from line `first`
/// with `requested` lines (at least one), the requests are for exactly the
/// lines `first`, `first + 1`, ... up to that many or up to the last line,
/// each with its own text and context.
pub proof fn law_batch_covers_requested_lines(lines: Seq<LineView>, first: int, requested: int, radius: int)
    requires
        0 <= first < lines.len(),
        requested >= 0,
    ensures
        ({
            let count = if requested == 0 { 1 } else { requested };
            let reqs = requests_spec(lines, first, capped_end(first, count, lines.len() as int), radius);
            &&& reqs.len() == if first + count <= lines.len() { count } else { lines.len() - first }
            &&& forall|k: int|
                0 <= k < reqs.len() ==> (#[trigger] reqs[k]).0 == lines[first + k].text && reqs[k].1
                    == translation_context_spec(lines, first + k, radius)
        }),
{
}

impl Editor {
    /// The target language, trimmed and upper-cased; an error when empty.
    pub fn normalized_target_lang(&self) -> (r: Result<String, String>)
        ensures
            target_missing(self.deepl_state) ==> is_err_with(r, "Set target language (for example, RU, EN, DE)"@),
            !target_missing(self.deepl_state) ==> r is Ok && r->Ok_0@ == target_lang_spec(self.deepl_state),
    {
        let t = string_from_chars(&trim_chars(&chars_of(self.deepl_state.target_lang.as_str())));
        let target = str_to_uppercase(t.as_str());
        if chars_of(target.as_str()).len() == 0 {
            return err_text("Set target language (for example, RU, EN, DE)");
        }
        Ok(target)
    }

    /// The source language, trimmed and upper-cased, when set.
    pub fn normalized_source_lang(&self) -> (r: Option<String>)
        ensures
            opt_chars(r) == source_lang_spec(self.deepl_state),
    {
        let t = string_from_chars(&trim_chars(&chars_of(self.deepl_state.source_lang.as_str())));
        let source = str_to_uppercase(t.as_str());
        if chars_of(source.as_str()).len() == 0 {
            None
        } else {
            Some(source)
        }
    }

    /// The settings for a DeepL call, or the first thing missing.
    pub fn translation_settings(&self) -> (r: Result<TranslationSettings, String>)
        ensures
            match settings_error_spec(self.deepl_state) {
                Some(m) => is_err_with(r, m),
                None => r is Ok && settings_match(r->Ok_0, self.deepl_state),
            },
    {
        let source_lang = self.normalized_source_lang();
        let target_lang = match self.normalized_target_lang() {
            Ok(t) => t,
            Err(e) => return Err(e),
        };
        let glossary_id = match &self.deepl_state.glossary_id {
            Some(g) => Some(g.clone()),
            None => None,
        };
        let key = trim_chars(&chars_of(self.deepl_state.api_key.as_str()));
        if key.len() == 0 {
            return err_text("Set DeepL API key");
        }
        Ok(TranslationSettings {
            api_key: string_from_chars(&key),
            use_free_api: self.deepl_state.use_free_api,
            source_lang,
            target_lang,
            glossary_id,
        })
    }

    /// The project shown in a pane, if any.
    pub fn project_for_pane(&self, pane: PaneSide) -> (r: Option<&ProjectState>)
        ensures
            match r {
                Some(p) => self.pane_view(pane) == Some(p@),
                None => self.pane_view(pane) is None,
            },
    {
        match pane {
            PaneSide::Primary => Some(&self.project),
            PaneSide::Secondary => match &self.secondary_project {
                Some(p) => Some(p),
                None => None,
            },
        }
    }

    /// The text of a line of a pane.
    pub fn line_text_by_focus(&self, pane: PaneSide, index: usize) -> (r: Result<String, String>)
        ensures
            match self.pane_view(pane) {
                None => is_err_with(r, "The chosen pane is unaccesible"@),
                Some(p) => if index < p.lines.len() {
                    r is Ok && r->Ok_0@ == p.lines[index as int].text
                } else {
                    is_err_with(r, "Line is not found"@)
                },
            },
    {
        let project = match self.project_for_pane(pane) {
            Some(p) => p,
            None => return err_text("The chosen pane is unaccesible"),
        };
        if index >= project.lines.len() {
            return err_text("Line is not found");
        }
        Ok(project.lines[index].text.clone())
    }

    /// Plans translating the focused line (Ctrl+T). In translation mode the
    /// left line is translated into the translation project; otherwise the
    /// line is translated in place. The context is taken from the same lines.
    pub fn plan_focused_translation(&self) -> (r: Result<TranslationJob, String>)
        ensures
            match self.active_focus {
                None => is_err_with(r, "Choose the line for translation"@),
                Some(f) => match settings_error_spec(self.deepl_state) {
                    Some(m) => is_err_with(r, m),
                    None => {
                        let radius = self.deepl_state.translation_context_radius as int;
                        if self.deepl_state.translation_mode {
                            if f.index >= self.project@.lines.len() {
                                is_err_with(r, "The source line is not found"@)
                            } else {
                                r is Ok && settings_match(r->Ok_0.settings, self.deepl_state)
                                    && r->Ok_0.kind == TranslationKind::FocusedLine
                                    && r->Ok_0.target == TranslationTarget::TranslationProject
                                    && r->Ok_0.start == f.index && requests_view(r->Ok_0.requests@)
                                    == requests_spec(self.project@.lines, f.index as int, f.index + 1, radius)
                            }
                        } else {
                            match self.pane_view(f.pane) {
                                None => is_err_with(r, "The chosen pane is unaccesible"@),
                                Some(p) => if f.index >= p.lines.len() {
                                    is_err_with(r, "Line is not found"@)
                                } else {
                                    r is Ok && settings_match(r->Ok_0.settings, self.deepl_state)
                                        && r->Ok_0.kind == TranslationKind::FocusedLine
                                        && r->Ok_0.target == TranslationTarget::Pane(f.pane)
                                        && r->Ok_0.start == f.index && requests_view(r->Ok_0.requests@)
                                        == requests_spec(p.lines, f.index as int, f.index + 1, radius)
                                },
                            }
                        }
                    },
                },
            },
    {
        let focus = match self.active_focus {
            Some(f) => f,
            None => return err_text("Choose the line for translation"),
        };
        let settings = match self.translation_settings() {
            Ok(s) => s,
            Err(e) => return Err(e),
        };
        let radius = self.deepl_state.translation_context_radius as usize;
        if self.deepl_state.translation_mode {
            if focus.index >= self.project.lines.len() {
                return err_text("The source line is not found");
            }
            let requests = line_requests(&self.project.lines, focus.index, focus.index + 1, radius);
            return Ok(TranslationJob {
                settings,
                kind: TranslationKind::FocusedLine,
                target: TranslationTarget::TranslationProject,
                start: focus.index,
                requests,
            });
        }
        let project = match self.project_for_pane(focus.pane) {
            Some(p) => p,
            None => return err_text("The chosen pane is unaccesible"),
        };
        if focus.index >= project.lines.len() {
            return err_text("Line is not found");
        }
        let requests = line_requests(&project.lines, focus.index, focus.index + 1, radius);
        Ok(TranslationJob {
            settings,
            kind: TranslationKind::FocusedLine,
            target: TranslationTarget::Pane(focus.pane),
            start: focus.index,
            requests,
        })
    }

    /// Plans translating up to `requested_count` lines (at least one) from the
    /// focused line on (Ctrl+Shift+T).
    pub fn plan_batch_translation(&self, requested_count: usize) -> (r: Result<TranslationJob, String>)
        ensures
            match self.active_focus {
                None => is_err_with(r, "Choose a line to start batch translation"@),
                Some(f) => match settings_error_spec(self.deepl_state) {
                    Some(m) => is_err_with(r, m),
                    None => {
                        let radius = self.deepl_state.translation_context_radius as int;
                        let count = if requested_count == 0 { 1 } else { requested_count as int };
                        if self.deepl_state.translation_mode {
                            let total = self.project@.lines.len() as int;
                            if f.index >= total {
                                is_err_with(r, "Focused line is out of range"@)
                            } else {
                                r is Ok && settings_match(r->Ok_0.settings, self.deepl_state)
                                    && r->Ok_0.kind == TranslationKind::LineRange
                                    && r->Ok_0.target == TranslationTarget::TranslationProject
                                    && r->Ok_0.start == f.index && requests_view(r->Ok_0.requests@)
                                    == requests_spec(self.project@.lines, f.index as int, capped_end(f.index as int, count, total), radius)
                            }
                        } else {
                            match self.pane_view(f.pane) {
                                None => is_err_with(r, "The chosen pane is unaccesible"@),
                                Some(p) => if f.index >= p.lines.len() {
                                    is_err_with(r, "Focused line is out of range"@)
                                } else {
                                    r is Ok && settings_match(r->Ok_0.settings, self.deepl_state)
                                        && r->Ok_0.kind == TranslationKind::LineRange
                                        && r->Ok_0.target == TranslationTarget::Pane(f.pane)
                                        && r->Ok_0.start == f.index && requests_view(r->Ok_0.requests@)
                                        == requests_spec(p.lines, f.index as int, capped_end(f.index as int, count, p.lines.len() as int), radius)
                                },
                            }
                        }
                    },
                },
            },
    {
        let focus = match self.active_focus {
            Some(f) => f,
            None => return err_text("Choose a line to start batch translation"),
        };
        let settings = match self.translation_settings() {
            Ok(s) => s,
            Err(e) => return Err(e),
        };
        let radius = self.deepl_state.translation_context_radius as usize;
        let count = if requested_count == 0 {
            1
        } else {
            requested_count
        };
        let (lines, target) = if self.deepl_state.translation_mode {
            if focus.index >= self.project.lines.len() {
                return err_text("Focused line is out of range");
            }
            (&self.project.lines, TranslationTarget::TranslationProject)
        } else {
            let project = match self.project_for_pane(focus.pane) {
                Some(p) => p,
                None => return err_text("The chosen pane is unaccesible"),
            };
            if focus.index >= project.lines.len() {
                return err_text("Focused line is out of range");
            }
            (&project.lines, TranslationTarget::Pane(focus.pane))
        };
        let start = focus.index;
        let end = if count < lines.len() - start {
            start + count
        } else {
            lines.len()
        };
        let requests = line_requests(lines, start, end, radius);
        Ok(TranslationJob { settings, kind: TranslationKind::LineRange, target, start, requests })
    }

    /// Plans translating a whole file: the left project in translation mode,
    /// otherwise the focused pane (the left one when nothing has focus).
    /// `None` when the file has no lines.
    pub fn plan_file_translation(&self) -> (r: Result<Option<TranslationJob>, String>)
        ensures
            match settings_error_spec(self.deepl_state) {
                Some(m) => is_err_with(r, m),
                None => {
                    let radius = self.deepl_state.translation_context_radius as int;
                    let pane = match self.active_focus {
                        Some(f) => f.pane,
                        None => PaneSide::Primary,
                    };
                    let source = if self.deepl_state.translation_mode {
                        Some(self.project@)
                    } else {
                        self.pane_view(pane)
                    };
                    match source {
                        None => is_err_with(r, "Выбранная панель недоступна"@),
                        Some(p) => if p.lines.len() == 0 {
                            r == Ok::<Option<TranslationJob>, String>(None)
                        } else {
                            r is Ok && r->Ok_0 is Some && settings_match(r->Ok_0->0.settings, self.deepl_state)
                                && r->Ok_0->0.kind == TranslationKind::WholeFile
                                && r->Ok_0->0.target == (if self.deepl_state.translation_mode {
                                    TranslationTarget::TranslationProject
                                } else {
                                    TranslationTarget::Pane(pane)
                                }) && r->Ok_0->0.start == 0 && requests_view(r->Ok_0->0.requests@)
                                == requests_spec(p.lines, 0, p.lines.len() as int, radius)
                        },
                    }
                },
            },
    {
        let settings = match self.translation_settings() {
            Ok(s) => s,
            Err(e) => return Err(e),
        };
        let radius = self.deepl_state.translation_context_radius as usize;
        let pane = match self.active_focus {
            Some(f) => f.pane,
            None => PaneSide::Primary,
        };
        let (project, target) = if self.deepl_state.translation_mode {
            (&self.project, TranslationTarget::TranslationProject)
        } else {
            match self.project_for_pane(pane) {
                Some(p) => (p, TranslationTarget::Pane(pane)),
                None => return err_text("Выбранная панель недоступна"),
            }
        };
        if project.lines.len() == 0 {
            return Ok(None);
        }
        let requests = line_requests(&project.lines, 0, project.lines.len(), radius);
        Ok(Some(TranslationJob { settings, kind: TranslationKind::WholeFile, target, start: 0, requests }))
    }
}


/// The texts written for DeepL's answers: a missing answer writes an empty text.
pub open spec fn answer_texts(answers: Seq<Option<String>>) -> Seq<Seq<char>> {
    answers.map_values(|a: Option<String>| match a {
        Some(t) => t@,
        None => seq![],
    })
}

/// Whether some answer is missing.
pub open spec fn has_missing_answer(answers: Seq<Option<String>>) -> bool {
    exists|k: int| 0 <= k < answers.len() && #[trigger] answers[k] is None
}

impl Editor {
    /// Writes the translations of a job (the first translation DeepL gave for
    /// each request, if any) where the job says.
    pub fn apply_translation(&mut self, job: &TranslationJob, answers: Vec<Option<String>>) -> (r: Result<(), String>)
        requires
            answers@.len() == job.requests@.len(),
            job.target == TranslationTarget::TranslationProject ==> job.start + job.requests@.len()
                <= old(self).project@.lines.len(),
        ensures
            final(self).diff_view_enabled == old(self).diff_view_enabled,
            final(self).active_focus == old(self).active_focus,
            final(self).deepl_state == old(self).deepl_state,
            final(self).history@ == old(self).history@,
            final(self).project@ == old(self).project@ || job.target == TranslationTarget::Pane(PaneSide::Primary),
            ({
                let texts = answer_texts(answers@);
                if job.kind == TranslationKind::FocusedLine && has_missing_answer(answers@) {
                    is_err_with(r, "DeepL вернул пустой ответ"@) && final(self).doc_view() == old(self).doc_view()
                } else {
                    match job.target {
                        TranslationTarget::TranslationProject => {
                            let e = ensured_translation_spec(old(self).project@, opt_project_view(old(self).secondary_project));
                            r is Ok && opt_project_view(final(self).secondary_project) == Some(
                                with_lines(e, written_spec(e.lines, job.start as int, texts)),
                            )
                        },
                        TranslationTarget::Pane(pane) => match old(self).pane_view(pane) {
                            None => final(self).doc_view() == old(self).doc_view() && is_err_with(
                                r,
                                if job.kind == TranslationKind::LineRange {
                                    "The chosen pane is unaccesible"@
                                } else {
                                    "Выбранная панель недоступна"@
                                },
                            ),
                            Some(p) => if job.kind == TranslationKind::FocusedLine && job.start
                                >= p.lines.len() {
                                final(self).doc_view() == old(self).doc_view() && is_err_with(r, "Строка не найдена"@)
                            } else if job.kind == TranslationKind::LineRange && job.start + texts.len()
                                > p.lines.len() {
                                final(self).doc_view() == old(self).doc_view() && is_err_with(
                                    r,
                                    "Pane lines changed during translation"@,
                                )
                            } else {
                                r is Ok && final(self).pane_view(pane) == Some(
                                    with_lines(p, written_spec(p.lines, job.start as int, texts)),
                                ) && match pane {
                                    PaneSide::Primary => opt_project_view(final(self).secondary_project)
                                        == opt_project_view(old(self).secondary_project),
                                    PaneSide::Secondary => final(self).project@ == old(self).project@,
                                }
                            },
                        },
                    }
                }
            }),
    {
        let ghost av = answers@;
        let mut texts: Vec<String> = Vec::new();
        let mut k: usize = 0;
        while k < answers.len()
            invariant
                k <= answers.len(),
                av == answers@,
                texts@.len() == k,
                forall|j: int| 0 <= j < k ==> (#[trigger] texts@[j])@ == answer_texts(av)[j],
                job.kind == TranslationKind::FocusedLine ==> forall|j: int| 0 <= j < k ==> !(#[trigger] av[j] is None),
            decreases answers.len() - k,
        {
            match &answers[k] {
                Some(t) => texts.push(t.clone()),
                None => {
                    if job.kind == TranslationKind::FocusedLine {
                        return err_text("DeepL вернул пустой ответ");
                    }
                    texts.push(String::new());
                },
            }
            k = k + 1;
        }
        proof {
            assert(texts@.map_values(|t: String| t@) =~= answer_texts(av));
        }
        match job.target {
            TranslationTarget::TranslationProject => {
                self.ensure_translation_project_for_source();
                match &mut self.secondary_project {
                    Some(p) => write_texts(&mut p.lines, job.start, &texts),
                    None => {},
                }
                Ok(())
            },
            TranslationTarget::Pane(pane) => {
                let kind = job.kind;
                let start = job.start;
                let missing_pane_message = if kind == TranslationKind::LineRange {
                    "The chosen pane is unaccesible"
                } else {
                    "Выбранная панель недоступна"
                };
                match pane {
                    PaneSide::Primary => {
                        if kind == TranslationKind::FocusedLine && start >= self.project.lines.len() {
                            return err_text("Строка не найдена");
                        }
                        if kind == TranslationKind::LineRange && (start > self.project.lines.len()
                            || texts.len() > self.project.lines.len() - start) {
                            return err_text("Pane lines changed during translation");
                        }
                        write_texts(&mut self.project.lines, start, &texts);
                        Ok(())
                    },
                    PaneSide::Secondary => match &mut self.secondary_project {
                        None => err_text(missing_pane_message),
                        Some(p) => {
                            if kind == TranslationKind::FocusedLine && start >= p.lines.len() {
                                return err_text("Строка не найдена");
                            }
                            if kind == TranslationKind::LineRange && (start > p.lines.len()
                                || texts.len() > p.lines.len() - start) {
                                return err_text("Pane lines changed during translation");
                            }
                            write_texts(&mut p.lines, start, &texts);
                            Ok(())
                        },
                    },
                }
            },
        }
    }
}


// ---------------------------------------------------------------------
// Alternatives
// ---------------------------------------------------------------------

/// A fragment of a line to look up alternatives for.
pub struct AlternativesRequest {
    pub pane: PaneSide,
    pub line_index: usize,
    pub start: usize,
    pub end: usize,
    pub selected_text: String,
    pub settings: TranslationSettings,
}

/// Whether `start..end` is the character range the alternatives lookup uses
/// for this focus: the selection, or else the word at the cursor.
pub open spec fn lookup_range(f: LineWidgetFocus, text: Seq<char>, start: int, end: int) -> bool {
    match f.selection_range {
        Some((s, e)) => start == s && end == e,
        None => match word_anchor(text, f.char_index as int) {
            Some(a) => is_word_span(text, a, start, end),
            None => false,
        },
    }
}

impl Editor {
    /// Plans looking up alternatives for the selection of the focused line,
    /// or for the word under the cursor (Ctrl+A).
    pub fn plan_alternatives(&self) -> (r: Result<AlternativesRequest, String>)
        ensures
            self.active_focus is None ==> is_err_with(r, "Выберите строку и выделите слово/фразу"@),
            r is Ok ==> ({
                let q = r->Ok_0;
                let f = self.active_focus->0;
                &&& self.active_focus is Some
                &&& q.pane == f.pane && q.line_index == f.index
                &&& self.pane_view(f.pane) is Some
                &&& f.index < self.pane_view(f.pane)->0.lines.len()
                &&& lookup_range(f, self.pane_view(f.pane)->0.lines[f.index as int].text, q.start as int, q.end as int)
                &&& substring_spec(self.pane_view(f.pane)->0.lines[f.index as int].text, q.start as int, q.end as int) == Some(q.selected_text@)
                &&& settings_match(q.settings, self.deepl_state)
            }),
            self.active_focus matches Some(f) ==> match self.pane_view(f.pane) {
                None => is_err_with(r, "The chosen pane is unaccesible"@),
                Some(p) => if f.index >= p.lines.len() {
                    is_err_with(r, "Line is not found"@)
                } else {
                    let t = p.lines[f.index as int].text;
                    let range_found = f.selection_range is Some || word_anchor(t, f.char_index as int) is Some;
                    if !range_found {
                        is_err_with(r, "Не удалось определить слово под курсором"@)
                    } else if f.selection_range matches Some((s, e)) && s >= e {
                        is_err_with(r, "Не удалось извлечь выделенный текст"@)
                    } else {
                        match settings_error_spec(self.deepl_state) {
                            Some(m) => is_err_with(r, m),
                            None => r is Ok,
                        }
                    }
                },
            },
    {
        let focus = match self.active_focus {
            Some(f) => f,
            None => return err_text("Выберите строку и выделите слово/фразу"),
        };
        let line_text = match self.line_text_by_focus(focus.pane, focus.index) {
            Ok(t) => t,
            Err(e) => return Err(e),
        };
        let (start, end) = match focus.selection_range {
            Some((s, e)) => (s, e),
            None => match word_span_at_char(line_text.as_str(), focus.char_index) {
                Some(span) => span,
                None => return err_text("Не удалось определить слово под курсором"),
            },
        };
        let selected_text = match substring_by_char_range(line_text.as_str(), start, end) {
            Some(t) => t,
            None => return err_text("Не удалось извлечь выделенный текст"),
        };
        let settings = match self.translation_settings() {
            Ok(s) => s,
            Err(e) => return Err(e),
        };
        Ok(AlternativesRequest { pane: focus.pane, line_index: focus.index, start, end, selected_text, settings })
    }

    /// Opens the alternatives window with what DeepL found; an error when it
    /// found nothing.
    pub fn open_alternatives(&mut self, request: AlternativesRequest, items: Vec<String>) -> (r: Result<(), String>)
        ensures
            final(self).doc_view() == old(self).doc_view(),
            items@.len() == 0 ==> is_err_with(r, "DeepL не вернул альтернативы"@)
                && final(self).deepl_state == old(self).deepl_state,
            items@.len() > 0 ==> r is Ok && (final(self).deepl_state.alternatives matches Some(a) && a.pane
                == request.pane && a.line_index == request.line_index && a.start == request.start
                && a.end == request.end && a.selected_text@ == request.selected_text@ && a.query@
                == request.selected_text@ && a.items@ == items@ && a.open),
            final(self).deepl_state == (DeepLUiState {
                alternatives: final(self).deepl_state.alternatives,
                ..old(self).deepl_state
            }),
            final(self).active_focus == old(self).active_focus,
            final(self).history@ == old(self).history@,
    {
        if items.len() == 0 {
            return err_text("DeepL не вернул альтернативы");
        }
        let query = request.selected_text.clone();
        self.deepl_state.alternatives = Some(AlternativesState {
            pane: request.pane,
            line_index: request.line_index,
            start: request.start,
            end: request.end,
            selected_text: request.selected_text,
            query,
            items,
            open: true,
        });
        Ok(())
    }

    /// Plans a new lookup for the query typed in the alternatives window.
    pub fn plan_refresh_alternatives(&self) -> (r: Result<(String, TranslationSettings), String>)
        ensures
            match self.deepl_state.alternatives {
                None => is_err_with(r, "Нет активного окна альтернатив"@),
                Some(a) => if trim_spec(a.query@).len() == 0 {
                    is_err_with(r, "Введите слово/фразу для поиска альтернатив"@)
                } else {
                    match settings_error_spec(self.deepl_state) {
                        Some(m) => is_err_with(r, m),
                        None => r is Ok && r->Ok_0.0@ == trim_spec(a.query@) && settings_match(
                            r->Ok_0.1,
                            self.deepl_state,
                        ),
                    }
                },
            },
    {
        let query = match &self.deepl_state.alternatives {
            Some(a) => trim_chars(&chars_of(a.query.as_str())),
            None => return err_text("Нет активного окна альтернатив"),
        };
        if query.len() == 0 {
            return err_text("Введите слово/фразу для поиска альтернатив");
        }
        let settings = match self.translation_settings() {
            Ok(s) => s,
            Err(e) => return Err(e),
        };
        Ok((string_from_chars(&query), settings))
    }

    /// Shows the alternatives found for the typed query; an error when none.
    pub fn set_alternative_items(&mut self, items: Vec<String>) -> (r: Result<(), String>)
        ensures
            final(self).doc_view() == old(self).doc_view(),
            items@.len() == 0 ==> is_err_with(r, "DeepL не вернул альтернативы"@),
            items@.len() > 0 ==> r is Ok && match (old(self).deepl_state.alternatives, final(self).deepl_state.alternatives) {
                (Some(a), Some(b)) => b.items@ == items@ && b == (AlternativesState { items: b.items, ..a }),
                (None, None) => true,
                _ => false,
            },
            items@.len() == 0 ==> final(self).deepl_state == old(self).deepl_state,
            final(self).deepl_state == (DeepLUiState {
                alternatives: final(self).deepl_state.alternatives,
                ..old(self).deepl_state
            }),
            final(self).active_focus == old(self).active_focus,
            final(self).history@ == old(self).history@,
    {
        if items.len() == 0 {
            return err_text("DeepL не вернул альтернативы");
        }
        match &mut self.deepl_state.alternatives {
            Some(state) => {
                state.items = items;
            },
            None => {},
        }
        Ok(())
    }

    /// Replaces the fragment the alternatives were looked up for with the
    /// chosen alternative.
    pub fn apply_alternative_text(&mut self, replacement: &str) -> (r: Result<(), String>)
        ensures
            final(self).deepl_state == old(self).deepl_state,
            final(self).active_focus == old(self).active_focus,
            final(self).history@ == old(self).history@,
            match old(self).deepl_state.alternatives {
                None => is_err_with(r, "Нет активных альтернатив"@) && final(self).doc_view() == old(self).doc_view(),
                Some(a) => match old(self).pane_view(a.pane) {
                    None => is_err_with(r, "Выбранная панель недоступна"@) && final(self).doc_view() == old(self).doc_view(),
                    Some(p) => if a.line_index >= p.lines.len() {
                        is_err_with(r, "Строка не найдена"@) && final(self).doc_view() == old(self).doc_view()
                    } else {
                        match replace_spec(p.lines[a.line_index as int].text, a.start as int, a.end as int, replacement@) {
                            None => is_err_with(r, "Не удалось заменить выделенный фрагмент"@)
                                && final(self).doc_view() == old(self).doc_view(),
                            Some(t) => r is Ok && final(self).pane_view(a.pane) == Some(
                                with_lines(
                                    p,
                                    p.lines.update(
                                        a.line_index as int,
                                        LineView { text: t, timecode: p.lines[a.line_index as int].timecode },
                                    ),
                                ),
                            ) && other_pane_kept(final(self), old(self), a.pane)
                                && final(self).diff_view_enabled == old(self).diff_view_enabled,
                        }
                    },
                },
            },
    {
        let (pane, line_index, start, end) = match &self.deepl_state.alternatives {
            Some(a) => (a.pane, a.line_index, a.start, a.end),
            None => return err_text("Нет активных альтернатив"),
        };
        let lines = match pane {
            PaneSide::Primary => &mut self.project.lines,
            PaneSide::Secondary => match &mut self.secondary_project {
                Some(p) => &mut p.lines,
                None => return err_text("Выбранная панель недоступна"),
            },
        };
        if line_index >= lines.len() {
            return err_text("Строка не найдена");
        }
        let text = match replace_char_range(lines[line_index].text.as_str(), start, end, replacement) {
            Some(t) => t,
            None => return err_text("Не удалось заменить выделенный фрагмент"),
        };
        let line = SubtitleLine { text, timecode: lines[line_index].timecode };
        let ghost before = lines_view(lines@);
        lines.set(line_index, line);
        proof {
            assert(lines_view(lines@) =~= before.update(
                line_index as int,
                LineView { text: line@.text, timecode: before[line_index as int].timecode },
            ));
        }
        Ok(())
    }
}


// ---------------------------------------------------------------------
// Glossary
// ---------------------------------------------------------------------

/// What uploading the glossary sends.
pub struct GlossarySync {
    pub api_key: String,
    pub use_free_api: bool,
    pub name: String,
    pub source_lang: String,
    pub target_lang: String,
    pub entries_tsv: String,
    /// The glossary to replace the dictionary of; a new glossary is created
    /// when there is none.
    pub glossary_id: Option<String>,
}

/// What loading the glossary needs.
pub struct GlossaryLoad {
    pub api_key: String,
    pub use_free_api: bool,
    pub name: String,
    pub source_lang: String,
    pub target_lang: String,
    /// The glossary to load; DeepL's list is searched when there is none.
    pub glossary_id: Option<String>,
}

impl Editor {
    /// Plans uploading the glossary for the SRC→DST pair. Errors, in order:
    /// no source language, no target language, no usable entry, no API key.
    pub fn plan_glossary_sync(&self) -> (r: Result<GlossarySync, String>)
        ensures
            source_lang_spec(self.deepl_state) is None ==> is_err_with(r, "Для глоссария укажите SRC language"@),
            source_lang_spec(self.deepl_state) is Some && target_missing(self.deepl_state)
                ==> is_err_with(r, "Set target language (for example, RU, EN, DE)"@),
            source_lang_spec(self.deepl_state) is Some && !target_missing(self.deepl_state)
                && tsv_lines(entries_view(self.deepl_state.glossary_entries@)).len() == 0 ==> is_err_with(
                r,
                empty_glossary_message(),
            ),
            source_lang_spec(self.deepl_state) is Some && !target_missing(self.deepl_state)
                && tsv_lines(entries_view(self.deepl_state.glossary_entries@)).len() > 0 && trim_spec(
                self.deepl_state.api_key@,
            ).len() == 0 ==> is_err_with(r, "Set DeepL API key"@),
            source_lang_spec(self.deepl_state) is Some && !target_missing(self.deepl_state)
                && tsv_lines(entries_view(self.deepl_state.glossary_entries@)).len() > 0 && trim_spec(
                self.deepl_state.api_key@,
            ).len() > 0 ==> r is Ok,
            r is Ok ==> ({
                let g = r->Ok_0;
                &&& Some(g.source_lang@) == source_lang_spec(self.deepl_state)
                &&& g.target_lang@ == target_lang_spec(self.deepl_state)
                &&& g.entries_tsv@ == join_spec(tsv_lines(entries_view(self.deepl_state.glossary_entries@)), seq!['\n'])
                &&& g.api_key@ == trim_spec(self.deepl_state.api_key@) && g.api_key@.len() > 0
                &&& g.use_free_api == self.deepl_state.use_free_api
                &&& g.name@ == self.deepl_state.glossary_name@
                &&& opt_chars(g.glossary_id) == opt_chars(self.deepl_state.glossary_id)
            }),
    {
        let source_lang = match self.normalized_source_lang() {
            Some(s) => s,
            None => return err_text("Для глоссария укажите SRC language"),
        };
        let target_lang = match self.normalized_target_lang() {
            Ok(t) => t,
            Err(e) => return Err(e),
        };
        let entries_tsv = match glossary_entries_to_tsv(&self.deepl_state.glossary_entries) {
            Ok(t) => t,
            Err(e) => return Err(e),
        };
        let key = trim_chars(&chars_of(self.deepl_state.api_key.as_str()));
        if key.len() == 0 {
            return err_text("Set DeepL API key");
        }
        let glossary_id = match &self.deepl_state.glossary_id {
            Some(g) => Some(g.clone()),
            None => None,
        };
        Ok(GlossarySync {
            api_key: string_from_chars(&key),
            use_free_api: self.deepl_state.use_free_api,
            name: self.deepl_state.glossary_name.clone(),
            source_lang,
            target_lang,
            entries_tsv,
            glossary_id,
        })
    }

    /// Plans loading the glossary for the SRC→DST pair. Errors, in order: no
    /// source language, no target language, no API key.
    pub fn plan_glossary_load(&self) -> (r: Result<GlossaryLoad, String>)
        ensures
            source_lang_spec(self.deepl_state) is None ==> is_err_with(r, "Для загрузки глоссария укажите SRC language"@),
            source_lang_spec(self.deepl_state) is Some && target_missing(self.deepl_state)
                ==> is_err_with(r, "Set target language (for example, RU, EN, DE)"@),
            source_lang_spec(self.deepl_state) is Some && !target_missing(self.deepl_state)
                && trim_spec(self.deepl_state.api_key@).len() == 0 ==> is_err_with(r, "Set DeepL API key"@),
            source_lang_spec(self.deepl_state) is Some && !target_missing(self.deepl_state)
                && trim_spec(self.deepl_state.api_key@).len() > 0 ==> r is Ok && ({
                let g = r->Ok_0;
                &&& Some(g.source_lang@) == source_lang_spec(self.deepl_state)
                &&& g.target_lang@ == target_lang_spec(self.deepl_state)
                &&& g.api_key@ == trim_spec(self.deepl_state.api_key@)
                &&& g.use_free_api == self.deepl_state.use_free_api
                &&& g.name@ == self.deepl_state.glossary_name@
                &&& opt_chars(g.glossary_id) == opt_chars(self.deepl_state.glossary_id)
            }),
    {
        let source_lang = match self.normalized_source_lang() {
            Some(s) => s,
            None => return err_text("Для загрузки глоссария укажите SRC language"),
        };
        let target_lang = match self.normalized_target_lang() {
            Ok(t) => t,
            Err(e) => return Err(e),
        };
        let key = trim_chars(&chars_of(self.deepl_state.api_key.as_str()));
        if key.len() == 0 {
            return err_text("Set DeepL API key");
        }
        let glossary_id = match &self.deepl_state.glossary_id {
            Some(g) => Some(g.clone()),
            None => None,
        };
        Ok(GlossaryLoad {
            api_key: string_from_chars(&key),
            use_free_api: self.deepl_state.use_free_api,
            name: self.deepl_state.glossary_name.clone(),
            source_lang,
            target_lang,
            glossary_id,
        })
    }

    /// Remembers the glossary DeepL created or that was found.
    pub fn set_glossary_id(&mut self, glossary_id: String)
        ensures
            opt_chars(final(self).deepl_state.glossary_id) == Some(glossary_id@),
            final(self).deepl_state == (DeepLUiState { glossary_id: final(self).deepl_state.glossary_id, ..old(self).deepl_state }),
            final(self).doc_view() == old(self).doc_view(),
            final(self).active_focus == old(self).active_focus,
            final(self).history@ == old(self).history@,
    {
        self.deepl_state.glossary_id = Some(glossary_id);
    }

    /// Installs the glossary loaded from DeepL: its entries and its id.
    pub fn install_glossary(&mut self, glossary_id: String, pairs: Vec<(String, String)>)
        ensures
            opt_chars(final(self).deepl_state.glossary_id) == Some(glossary_id@),
            entries_view(final(self).deepl_state.glossary_entries@) == pairs@.map_values(
                |p: (String, String)| (p.0@, p.1@),
            ),
            final(self).deepl_state == (DeepLUiState {
                glossary_id: final(self).deepl_state.glossary_id,
                glossary_entries: final(self).deepl_state.glossary_entries,
                ..old(self).deepl_state
            }),
            final(self).doc_view() == old(self).doc_view(),
            final(self).active_focus == old(self).active_focus,
            final(self).history@ == old(self).history@,
    {
        self.deepl_state.glossary_entries = entries_from_pairs(pairs);
        self.deepl_state.glossary_id = Some(glossary_id);
    }

    /// Adds an empty glossary entry.
    pub fn add_glossary_entry(&mut self)
        ensures
            entries_view(final(self).deepl_state.glossary_entries@) == entries_view(
                old(self).deepl_state.glossary_entries@,
            ).push((seq![], seq![])),
            final(self).deepl_state == (DeepLUiState {
                glossary_entries: final(self).deepl_state.glossary_entries,
                ..old(self).deepl_state
            }),
            final(self).doc_view() == old(self).doc_view(),
            final(self).active_focus == old(self).active_focus,
            final(self).history@ == old(self).history@,
    {
        let ghost before = entries_view(self.deepl_state.glossary_entries@);
        self.deepl_state.glossary_entries.push(GlossaryEntry { source: String::new(), target: String::new() });
        proof {
            assert(entries_view(self.deepl_state.glossary_entries@) =~= before.push((seq![], seq![])));
        }
    }

    /// Removes glossary entry `index`, if there is one.
    pub fn remove_glossary_entry(&mut self, index: usize)
        ensures
            index < old(self).deepl_state.glossary_entries@.len() ==> entries_view(
                final(self).deepl_state.glossary_entries@,
            ) == entries_view(old(self).deepl_state.glossary_entries@).remove(index as int),
            index >= old(self).deepl_state.glossary_entries@.len() ==> final(self).deepl_state.glossary_entries
                == old(self).deepl_state.glossary_entries,
            final(self).deepl_state == (DeepLUiState {
                glossary_entries: final(self).deepl_state.glossary_entries,
                ..old(self).deepl_state
            }),
            final(self).doc_view() == old(self).doc_view(),
            final(self).active_focus == old(self).active_focus,
            final(self).history@ == old(self).history@,
    {
        if index < self.deepl_state.glossary_entries.len() {
            let ghost before = entries_view(self.deepl_state.glossary_entries@);
            let _removed = self.deepl_state.glossary_entries.remove(index);
            proof {
                assert(entries_view(self.deepl_state.glossary_entries@) =~= before.remove(index as int));
            }
        }
    }
}

} // verus!
