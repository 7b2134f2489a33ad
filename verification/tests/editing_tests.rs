use subtitle_editor::line_edit::focus_at_cursor;
use subtitle_editor::duration::Duration;
use subtitle_editor::editor::Editor;
use subtitle_editor::history::{history_action_from_shortcuts, HistoryAction};
use subtitle_editor::line_edit::{
    display_len, key_matches_shortcut, line_action_from_shortcuts, merge_timecodes,
    merge_with_previous_in, shortcut_pressed, split_line_at_in, is_latin_letter_key, KeyEvent,
    LineWidgetAction, LineWidgetFocus, PaneSide,
};
use subtitle_editor::project::{ProjectState, SubtitleFileType, SubtitleLine};
use subtitle_editor::timecode::TimecodeRange;

fn ms(n: u64) -> Duration {
    Duration::from_millis(n)
}

fn line(text: &str, tc: Option<(u64, u64)>) -> SubtitleLine {
    SubtitleLine {
        text: text.to_string(),
        timecode: tc.map(|(a, b)| TimecodeRange { start: ms(a), end: ms(b) }),
    }
}

fn project(lines: Vec<SubtitleLine>) -> ProjectState {
    ProjectState { lines, file_type: Some(SubtitleFileType::Sbv), file_path: None }
}

fn focus(index: usize, char_index: usize) -> LineWidgetFocus {
    LineWidgetFocus { pane: PaneSide::Primary, index, char_index, selection_range: None }
}

#[test]
fn merges_line_into_previous() {
    let mut lines = vec![line("Hello", Some((1_000, 2_000))), line("world", Some((2_500, 4_000)))];
    merge_with_previous_in(&mut lines, 1);
    assert_eq!(lines.len(), 1);
    assert_eq!(lines[0].text, "Hello\nworld");
    assert_eq!(lines[0].timecode, Some(TimecodeRange { start: ms(1_000), end: ms(4_000) }));
}

#[test]
fn merge_without_newline_when_one_side_empty() {
    let mut lines = vec![line("", None), line("text", Some((5, 9)))];
    merge_with_previous_in(&mut lines, 1);
    assert_eq!(lines[0].text, "text");
    assert_eq!(lines[0].timecode, Some(TimecodeRange { start: ms(5), end: ms(9) }));
}

#[test]
fn merge_out_of_range_does_nothing() {
    let mut lines = vec![line("a", None), line("b", None)];
    merge_with_previous_in(&mut lines, 0);
    merge_with_previous_in(&mut lines, 2);
    assert_eq!(lines.len(), 2);
}

#[test]
fn merges_timecodes() {
    let a = TimecodeRange { start: ms(3), end: ms(9) };
    let b = TimecodeRange { start: ms(1), end: ms(5) };
    assert_eq!(merge_timecodes(Some(a), Some(b)), Some(TimecodeRange { start: ms(1), end: ms(9) }));
    assert_eq!(merge_timecodes(None, Some(b)), Some(b));
    assert_eq!(merge_timecodes(Some(a), None), Some(a));
    assert_eq!(merge_timecodes(None, None), None);
}

#[test]
fn splits_line_at_cursor() {
    let mut lines = vec![line("abcd", Some((0, 4_000)))];
    split_line_at_in(&mut lines, 0, 1);
    assert_eq!(lines.len(), 2);
    assert_eq!(lines[0].text, "a");
    assert_eq!(lines[1].text, "bcd");
    assert_eq!(lines[0].timecode, Some(TimecodeRange { start: ms(0), end: ms(1_000) }));
    assert_eq!(lines[1].timecode, Some(TimecodeRange { start: ms(1_000), end: ms(4_000) }));
}

#[test]
fn split_then_merge_restores_timecode() {
    let mut lines = vec![line("héllo wörld", Some((1_000, 12_000)))];
    split_line_at_in(&mut lines, 0, 5);
    assert_eq!(lines[0].text, "héllo");
    assert_eq!(lines[1].text, " wörld");
    merge_with_previous_in(&mut lines, 1);
    assert_eq!(lines[0].text, "héllo\n wörld");
    assert_eq!(lines[0].timecode, Some(TimecodeRange { start: ms(1_000), end: ms(12_000) }));
}

#[test]
fn split_at_edges_does_nothing() {
    let mut lines = vec![line("abc", None)];
    split_line_at_in(&mut lines, 0, 0);
    split_line_at_in(&mut lines, 0, 3);
    split_line_at_in(&mut lines, 0, 99);
    split_line_at_in(&mut lines, 5, 1);
    assert_eq!(lines.len(), 1);
    assert_eq!(lines[0].text, "abc");
}

#[test]
fn counts_display_length() {
    assert_eq!(display_len(""), 1);
    assert_eq!(display_len("привет"), 6);
}

#[test]
fn chooses_line_actions() {
    assert_eq!(line_action_from_shortcuts(None, true, true), None);
    assert_eq!(
        line_action_from_shortcuts(Some(focus(2, 3)), true, false),
        Some(LineWidgetAction::SplitAtCursor { pane: PaneSide::Primary, index: 2, char_index: 3 })
    );
    assert_eq!(
        line_action_from_shortcuts(Some(focus(2, 0)), false, true),
        Some(LineWidgetAction::MergeWithPrevious { pane: PaneSide::Primary, index: 2 })
    );
    assert_eq!(line_action_from_shortcuts(Some(focus(2, 1)), false, true), None);
    assert_eq!(line_action_from_shortcuts(Some(focus(0, 0)), false, true), None);
}

#[test]
fn matches_shortcut_keys_across_layouts() {
    let enter = "Enter".to_string();
    assert!(key_matches_shortcut(&enter, &None, &enter));
    assert!(!key_matches_shortcut(&"Z".to_string(), &Some(enter.clone()), &enter));
    assert!(key_matches_shortcut(&"Unknown".to_string(), &Some(enter.clone()), &enter));
    assert!(is_latin_letter_key(&"Q".to_string()));
    assert!(!is_latin_letter_key(&"Enter".to_string()));
    let events = vec![KeyEvent { key: "Backspace".to_string(), physical_key: None, pressed: true }];
    assert!(shortcut_pressed(true, false, &events, &"Backspace".to_string(), true, false));
    assert!(!shortcut_pressed(true, true, &events, &"Backspace".to_string(), true, false));
    let released = vec![KeyEvent { key: "Enter".to_string(), physical_key: None, pressed: false }];
    assert!(!shortcut_pressed(true, false, &released, &enter, true, false));
}

#[test]
fn chooses_history_action() {
    assert_eq!(history_action_from_shortcuts(true, true), Some(HistoryAction::Redo));
    assert_eq!(history_action_from_shortcuts(false, true), Some(HistoryAction::Undo));
    assert_eq!(history_action_from_shortcuts(false, false), None);
}

#[test]
fn undo_and_redo_restore_document() {
    let mut editor = Editor::new();
    editor.load_primary_project(project(vec![line("one", None)]));
    let before = editor.current_snapshot();
    editor.split_line_at(PaneSide::Primary, 0, 1);
    assert_eq!(editor.project.lines.len(), 2);
    editor.capture_history_if_project_changed(before);
    assert_eq!(editor.history.undo_stack.len(), 1);
    editor.undo();
    assert_eq!(editor.project.lines.len(), 1);
    assert_eq!(editor.project.lines[0].text, "one");
    assert_eq!(editor.history.redo_stack.len(), 1);
    editor.redo();
    assert_eq!(editor.project.lines.len(), 2);
    assert_eq!(editor.project.lines[1].text, "ne");
    editor.apply_history_action(HistoryAction::Undo);
    assert_eq!(editor.project.lines.len(), 1);
}

#[test]
fn unchanged_document_records_nothing() {
    let mut editor = Editor::new();
    let before = editor.current_snapshot();
    editor.capture_history_if_project_changed(before);
    assert_eq!(editor.history.undo_stack.len(), 0);
}

#[test]
fn undo_history_keeps_two_hundred_steps() {
    let mut editor = Editor::new();
    editor.load_primary_project(project(vec![line("x", None)]));
    for i in 0..205 {
        let before = editor.current_snapshot();
        editor.project.lines[0].text = format!("x{}", i);
        editor.capture_history_if_project_changed(before);
    }
    assert_eq!(editor.history.undo_stack.len(), 200);
    editor.clear_history();
    assert_eq!(editor.history.undo_stack.len(), 0);
}

#[test]
fn translation_project_follows_source() {
    let mut editor = Editor::new();
    editor.load_primary_project(project(vec![line("a", Some((0, 1))), line("b", None)]));
    editor.enable_translation_mode();
    assert!(editor.diff_view_enabled);
    let secondary = editor.secondary_project.as_ref().unwrap();
    assert_eq!(secondary.lines.len(), 2);
    assert_eq!(secondary.lines[0].text, "");
    assert_eq!(secondary.lines[0].timecode, Some(TimecodeRange { start: ms(0), end: ms(1) }));
    assert_eq!(secondary.file_path, None);
    editor.secondary_project.as_mut().unwrap().lines[0].text = "A".to_string();
    editor.project.lines.push(line("c", Some((5, 6))));
    editor.ensure_translation_project_for_source();
    let secondary = editor.secondary_project.as_ref().unwrap();
    assert_eq!(secondary.lines.len(), 3);
    assert_eq!(secondary.lines[0].text, "A");
    assert_eq!(secondary.lines[2].timecode, Some(TimecodeRange { start: ms(5), end: ms(6) }));
}

#[test]
fn copies_timecodes_between_panes() {
    let mut editor = Editor::new();
    editor.load_primary_project(project(vec![line("a", Some((0, 1))), line("b", Some((2, 3)))]));
    editor.load_secondary_project(project(vec![line("x", None)]));
    editor.apply_timecodes_primary_to_secondary();
    let secondary = editor.secondary_project.as_ref().unwrap();
    assert_eq!(secondary.lines.len(), 1);
    assert_eq!(secondary.lines[0].text, "x");
    assert_eq!(secondary.lines[0].timecode, Some(TimecodeRange { start: ms(0), end: ms(1) }));
    editor.secondary_project.as_mut().unwrap().lines[0].timecode = None;
    editor.apply_timecodes_secondary_to_primary();
    assert_eq!(editor.project.lines[0].timecode, None);
    assert_eq!(editor.project.lines[1].timecode, Some(TimecodeRange { start: ms(2), end: ms(3) }));
}

#[test]
fn line_actions_on_missing_pane_do_nothing() {
    let mut editor = Editor::new();
    editor.load_primary_project(project(vec![line("ab", None)]));
    editor.apply_line_action(LineWidgetAction::SplitAtCursor { pane: PaneSide::Secondary, index: 0, char_index: 1 });
    assert_eq!(editor.project.lines.len(), 1);
    editor.apply_line_action(LineWidgetAction::SplitAtCursor { pane: PaneSide::Primary, index: 0, char_index: 1 });
    assert_eq!(editor.project.lines.len(), 2);
    editor.apply_line_action(LineWidgetAction::MergeWithPrevious { pane: PaneSide::Primary, index: 1 });
    assert_eq!(editor.project.lines[0].text, "a\nb");
}

#[test]
fn timecodes_copied_there_and_back_leave_left_unchanged() {
    let mut editor = Editor::new();
    editor.load_primary_project(project(vec![line("a", Some((0, 1))), line("b", None), line("c", Some((4, 5)))]));
    editor.load_secondary_project(project(vec![line("x", Some((9, 9))), line("y", Some((7, 8)))]));
    editor.apply_timecodes_primary_to_secondary();
    editor.apply_timecodes_primary_to_secondary();
    let right = editor.secondary_project.as_ref().unwrap();
    assert_eq!(right.lines[0].timecode, Some(TimecodeRange { start: ms(0), end: ms(1) }));
    assert_eq!(right.lines[1].timecode, None);
    editor.apply_timecodes_secondary_to_primary();
    assert_eq!(editor.project.lines.len(), 3);
    assert_eq!(editor.project.lines[0].timecode, Some(TimecodeRange { start: ms(0), end: ms(1) }));
    assert_eq!(editor.project.lines[1].timecode, None);
    assert_eq!(editor.project.lines[2].timecode, Some(TimecodeRange { start: ms(4), end: ms(5) }));
    assert_eq!(editor.project.lines[1].text, "b");
}

#[test]
fn focus_from_cursor_ends() {
    let f = focus_at_cursor(PaneSide::Secondary, 3, 7, 2);
    assert_eq!((f.pane, f.index, f.char_index, f.selection_range), (PaneSide::Secondary, 3, 7, Some((2, 7))));
    let g = focus_at_cursor(PaneSide::Primary, 0, 4, 4);
    assert_eq!(g.selection_range, None);
}

#[test]
fn frame_end_records_change_unless_handled() {
    let mut editor = Editor::new();
    let before = editor.current_snapshot();
    editor.load_primary_project(project(vec![line("a", None)]));
    editor.finish_frame(before, true);
    assert!(editor.history.undo_stack.is_empty());
    let before = editor.current_snapshot();
    editor.project.lines[0].text = "b".to_string();
    editor.finish_frame(before, false);
    assert_eq!(editor.history.undo_stack.len(), 1);
}

#[test]
fn translation_mode_keeps_diff_view() {
    let mut editor = Editor::new();
    editor.keep_diff_view_for_translation();
    assert!(!editor.diff_view_enabled);
    editor.deepl_state.translation_mode = true;
    editor.keep_diff_view_for_translation();
    assert!(editor.diff_view_enabled);
}
