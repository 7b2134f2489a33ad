//! Editing subtitle lines: merging a line into the previous one, splitting a
//! line at the cursor, and the keyboard shortcuts that ask for either.

use vstd::prelude::*;
use crate::duration::{Duration, max_duration_nanos};
use crate::project::{LineView, SubtitleLine, lines_view};
use crate::text::{capped_index, char_count, chars_of, string_from_chars, subrange_vec};
use crate::timecode::{
    TimecodeRange, lemma_split_point_within, split_point_spec, split_timecode_range,
};

verus! {

/// Which of the two editor panes a line belongs to.
#[derive(Clone, Copy, Debug, PartialEq, Eq, Structural)]
pub enum PaneSide {
    Primary,
    Secondary,
}

/// An edit that a keyboard shortcut asks for.
#[derive(Clone, Copy, Debug, PartialEq, Eq, Structural)]
pub enum LineWidgetAction {
    SplitAtCursor { pane: PaneSide, index: usize, char_index: usize },
    MergeWithPrevious { pane: PaneSide, index: usize },
}

/// The line that has keyboard focus, with the cursor position and the
/// selected character range, if any.
#[derive(Clone, Copy, Debug)]
pub struct LineWidgetFocus {
    pub pane: PaneSide,
    pub index: usize,
    pub char_index: usize,
    pub selection_range: Option<(usize, usize)>,
}

/// The focus of a line whose text cursor has the given ends: the cursor is
/// at the primary end, and the selection, when the ends differ, runs from
/// the smaller to the larger.
pub fn focus_at_cursor(pane: PaneSide, index: usize, primary: usize, secondary: usize) -> (f: LineWidgetFocus)
    ensures
        f.pane == pane,
        f.index == index,
        f.char_index == primary,
        f.selection_range == if primary == secondary {
            None
        } else if primary < secondary {
            Some((primary, secondary))
        } else {
            Some((secondary, primary))
        },
{
    let selection_range = if primary == secondary {
        None
    } else if primary < secondary {
        Some((primary, secondary))
    } else {
        Some((secondary, primary))
    };
    LineWidgetFocus { pane, index, char_index: primary, selection_range }
}

/// The action for the focused line: Ctrl+Enter splits at the cursor;
/// otherwise Ctrl+Backspace at the very start of a line other than the first
/// merges it into the previous one.
pub open spec fn line_action_spec(
    focused: Option<LineWidgetFocus>,
    split_pressed: bool,
    merge_pressed: bool,
) -> Option<LineWidgetAction> {
    match focused {
        None => None,
        Some(f) => if split_pressed {
            Some(LineWidgetAction::SplitAtCursor { pane: f.pane, index: f.index, char_index: f.char_index })
        } else if merge_pressed && f.char_index == 0 && f.index > 0 {
            Some(LineWidgetAction::MergeWithPrevious { pane: f.pane, index: f.index })
        } else {
            None
        },
    }
}

/// Chooses the line action for the focused line, given whether the split
/// (Ctrl+Enter) and merge (Ctrl+Backspace) shortcuts were pressed.
pub fn line_action_from_shortcuts(
    focused: Option<LineWidgetFocus>,
    split_pressed: bool,
    merge_pressed: bool,
) -> (r: Option<LineWidgetAction>)
    ensures
        r == line_action_spec(focused, split_pressed, merge_pressed),
{
    let focused = match focused {
        Some(f) => f,
        None => return None,
    };
    if split_pressed {
        return Some(
            LineWidgetAction::SplitAtCursor {
                pane: focused.pane,
                index: focused.index,
                char_index: focused.char_index,
            },
        );
    }
    if merge_pressed && focused.char_index == 0 && focused.index > 0 {
        return Some(LineWidgetAction::MergeWithPrevious { pane: focused.pane, index: focused.index });
    }
    None
}

/// A key event, with keys named as the UI toolkit names them (`"A"`..`"Z"`,
/// `"Enter"`, `"Backspace"`, ...).
pub struct KeyEvent {
    pub key: String,
    pub physical_key: Option<String>,
    pub pressed: bool,
}

/// Whether a key name is one of the Latin letters `"A"`..`"Z"`.
pub open spec fn is_latin_letter_key_spec(key: Seq<char>) -> bool {
    key.len() == 1 && 'A' <= key[0] && key[0] <= 'Z'
}

/// Whether the key named `key` is a Latin letter key.
pub fn is_latin_letter_key(key: &String) -> (r: bool)
    ensures
        r == is_latin_letter_key_spec(key@),
{
    let chars = chars_of(key.as_str());
    chars.len() == 1 && 'A' <= chars[0] && chars[0] <= 'Z'
}

/// A key event matches a shortcut key when its logical key is that key, or,
/// when the logical key is not a Latin letter (a non-Latin keyboard layout),
/// when its physical key is.
pub open spec fn key_matches_spec(logical: Seq<char>, physical: Option<Seq<char>>, target: Seq<char>) -> bool {
    logical == target || (!is_latin_letter_key_spec(logical) && physical == Some(target))
}

/// Whether a key event with these logical and physical keys triggers the
/// shortcut on `target`.
pub fn key_matches_shortcut(logical_key: &String, physical_key: &Option<String>, target_key: &String) -> (r: bool)
    ensures
        r == key_matches_spec(
            logical_key@,
            match physical_key {
                Some(p) => Some(p@),
                None => None,
            },
            target_key@,
        ),
{
    if logical_key.eq(target_key) {
        return true;
    }
    if is_latin_letter_key(logical_key) {
        return false;
    }
    match physical_key {
        Some(p) => p.eq(target_key),
        None => false,
    }
}

/// Whether the shortcut `target` with exactly the required Ctrl and Shift
/// state was pressed in this frame.
pub open spec fn shortcut_pressed_spec(
    ctrl: bool,
    shift: bool,
    events: Seq<KeyEvent>,
    target: Seq<char>,
    require_ctrl: bool,
    require_shift: bool,
) -> bool {
    ctrl == require_ctrl && shift == require_shift && exists|i: int|
        0 <= i < events.len() && #[trigger] events[i].pressed && key_matches_spec(
            events[i].key@,
            match events[i].physical_key {
                Some(p) => Some(p@),
                None => None,
            },
            target,
        )
}

/// Whether a shortcut was pressed, given the modifier state and this frame's
/// key events.
pub fn shortcut_pressed(
    ctrl: bool,
    shift: bool,
    events: &Vec<KeyEvent>,
    target_key: &String,
    require_ctrl: bool,
    require_shift: bool,
) -> (r: bool)
    ensures
        r == shortcut_pressed_spec(ctrl, shift, events@, target_key@, require_ctrl, require_shift),
{
    if ctrl != require_ctrl || shift != require_shift {
        return false;
    }
    let mut i: usize = 0;
    while i < events.len()
        invariant
            ctrl == require_ctrl && shift == require_shift,
            i <= events.len(),
            forall|j: int|
                0 <= j < i ==> !(#[trigger] events@[j].pressed && key_matches_spec(
                    events@[j].key@,
                    match events@[j].physical_key {
                        Some(p) => Some(p@),
                        None => None,
                    },
                    target_key@,
                )),
        decreases events.len() - i,
    {
        if events[i].pressed && key_matches_shortcut(&events[i].key, &events[i].physical_key, target_key) {
            proof {
                let e = events@[i as int];
                assert(e.pressed);
                assert(key_matches_spec(
                    e.key@,
                    match e.physical_key {
                        Some(p) => Some(p@),
                        None => None,
                    },
                    target_key@,
                ));
            }
            return true;
        }
        i = i + 1;
    }
    false
}

// ---------------------------------------------------------------------
// Merging and splitting lines
// ---------------------------------------------------------------------

/// The time range of two merged lines: from the earlier start to the later
/// end; a missing range takes the other.
pub open spec fn merge_timecodes_spec(left: Option<TimecodeRange>, right: Option<TimecodeRange>) -> Option<TimecodeRange> {
    match (left, right) {
        (Some(a), Some(b)) => Some(
            TimecodeRange {
                start: if a.start@ <= b.start@ {
                    a.start
                } else {
                    b.start
                },
                end: if a.end@ >= b.end@ {
                    a.end
                } else {
                    b.end
                },
            },
        ),
        (Some(a), None) => Some(a),
        (None, Some(b)) => Some(b),
        (None, None) => None,
    }
}

/// Combines the time ranges of two merged lines.
pub fn merge_timecodes(left: Option<TimecodeRange>, right: Option<TimecodeRange>) -> (r: Option<TimecodeRange>)
    ensures
        r == merge_timecodes_spec(left, right),
{
    match (left, right) {
        (Some(a), Some(b)) => {
            let start = if a.start.le(&b.start) {
                a.start
            } else {
                b.start
            };
            let end = if b.end.le(&a.end) {
                a.end
            } else {
                b.end
            };
            Some(TimecodeRange { start, end })
        },
        (Some(a), None) => Some(a),
        (None, Some(b)) => Some(b),
        (None, None) => None,
    }
}

/// The text of two merged lines: joined by a newline when both are non-empty.
pub open spec fn joined_text(a: Seq<char>, b: Seq<char>) -> Seq<char> {
    if a.len() > 0 && b.len() > 0 {
        a + seq!['\n'] + b
    } else {
        a + b
    }
}

/// The lines after merging line `index` into line `index - 1`; unchanged when
/// `index` is 0 or out of range.
pub open spec fn merge_with_previous_spec(lines: Seq<LineView>, index: int) -> Seq<LineView> {
    if index == 0 || index >= lines.len() {
        lines
    } else {
        lines.remove(index).update(
            index - 1,
            LineView {
                text: joined_text(lines[index - 1].text, lines[index].text),
                timecode: merge_timecodes_spec(lines[index - 1].timecode, lines[index].timecode),
            },
        )
    }
}

/// Merges line `index` into the line before it.
pub fn merge_with_previous_in(lines: &mut Vec<SubtitleLine>, index: usize)
    ensures
        lines_view(final(lines)@) == merge_with_previous_spec(lines_view(old(lines)@), index as int),
{
    if index == 0 || index >= lines.len() {
        return;
    }
    let ghost old_view = lines_view(lines@);
    let current = lines.remove(index);
    let prev_text = chars_of(lines[index - 1].text.as_str());
    let cur_text = chars_of(current.text.as_str());
    let mut text = prev_text.clone();
    if prev_text.len() > 0 && cur_text.len() > 0 {
        text.push('\n');
    }
    let mut k: usize = 0;
    while k < cur_text.len()
        invariant
            k <= cur_text.len(),
            text@ == (if prev_text@.len() > 0 && cur_text@.len() > 0 {
                prev_text@ + seq!['\n']
            } else {
                prev_text@
            }) + cur_text@.take(k as int),
        decreases cur_text.len() - k,
    {
        text.push(cur_text[k]);
        k = k + 1;
        proof {
            assert(cur_text@.take(k as int) == cur_text@.take(k - 1).push(cur_text@[k - 1]));
        }
    }
    proof {
        assert(cur_text@.take(k as int) =~= cur_text@);
    }
    let timecode = merge_timecodes(lines[index - 1].timecode, current.timecode);
    let merged = SubtitleLine { text: string_from_chars(&text), timecode };
    lines.set(index - 1, merged);
    proof {
        assert(lines_view(lines@) =~= merge_with_previous_spec(old_view, index as int));
    }
}

/// The number of characters of a text, counting an empty text as one.
pub fn display_len(text: &str) -> (r: usize)
    ensures
        r == if text@.len() == 0 {
            1
        } else {
            text@.len()
        },
{
    let n = char_count(text);
    if n == 0 {
        1
    } else {
        n
    }
}

/// Whether `l` and `r` are the halves of range `tc` cut where
/// `split_timecode_range` cuts it for texts of these lengths.
pub open spec fn is_split_range(
    tc: TimecodeRange,
    l: TimecodeRange,
    r: TimecodeRange,
    left_len: nat,
    right_len: nat,
) -> bool {
    &&& l.start == tc.start
    &&& r.end == tc.end
    &&& l.end == r.start
    &&& l.end@ == split_point_spec(tc.start@, tc.end@, left_len, right_len)
}

/// Whether `after` is `before` with line `index` split at character
/// `char_index`: the left part keeps the line's place, the right part follows
/// it, and a time range is shared out in proportion to the two texts' lengths.
/// Nothing changes when `index` is out of range or either part would be empty.
pub open spec fn is_split_line(before: Seq<LineView>, after: Seq<LineView>, index: int, char_index: int) -> bool {
    if index < 0 || index >= before.len() {
        after == before
    } else {
        let t = before[index].text;
        let k = capped_index(t, char_index);
        if k == 0 || k == t.len() {
            after == before
        } else {
            &&& after.len() == before.len() + 1
            &&& forall|i: int| 0 <= i < index ==> after[i] == before[i]
            &&& forall|i: int| index + 1 < i < after.len() ==> after[i] == before[i - 1]
            &&& after[index].text == t.take(k)
            &&& after[index + 1].text == t.skip(k)
            &&& match before[index].timecode {
                None => after[index].timecode is None && after[index + 1].timecode is None,
                Some(tc) => after[index].timecode is Some && after[index + 1].timecode is Some
                    && is_split_range(
                    tc,
                    after[index].timecode->0,
                    after[index + 1].timecode->0,
                    k as nat,
                    (t.len() - k) as nat,
                ),
            }
        }
    }
}

/// Splits line `index` in two at character `char_index`.
pub fn split_line_at_in(lines: &mut Vec<SubtitleLine>, index: usize, char_index: usize)
    ensures
        is_split_line(lines_view(old(lines)@), lines_view(final(lines)@), index as int, char_index as int),
{
    if index >= lines.len() {
        return;
    }
    let text = chars_of(lines[index].text.as_str());
    let split = if char_index < text.len() {
        char_index
    } else {
        text.len()
    };
    let left_text = subrange_vec(&text, 0, split);
    let right_text = subrange_vec(&text, split, text.len());
    if left_text.len() == 0 || right_text.len() == 0 {
        return;
    }
    let (left_timecode, right_timecode) = match lines[index].timecode {
        Some(tc) => {
            let (l, r) = split_timecode_range(&tc, left_text.len(), right_text.len());
            (Some(l), Some(r))
        },
        None => (None, None),
    };
    let ghost before = lines_view(lines@);
    let left = SubtitleLine { text: string_from_chars(&left_text), timecode: left_timecode };
    let right = SubtitleLine { text: string_from_chars(&right_text), timecode: right_timecode };
    lines.set(index, left);
    lines.insert(index + 1, right);
    proof {
        let after = lines_view(lines@);
        assert(left_text@ =~= text@.take(split as int));
        assert(right_text@ =~= text@.skip(split as int));
        assert forall|i: int| 0 <= i < index implies after[i] == before[i] by {}
        assert forall|i: int| index + 1 < i < after.len() implies after[i] == before[i - 1] by {}
    }
}


/// Merging the second half of a split line back into the first restores the
/// line's time range (when it does not end before it starts), and its text
/// with a newline at the cut.
pub proof fn law_split_then_merge(before: Seq<LineView>, after: Seq<LineView>, index: int, char_index: int)
    requires
        0 <= index < before.len(),
        0 < capped_index(before[index].text, char_index) < before[index].text.len(),
        is_split_line(before, after, index, char_index),
        before[index].timecode matches Some(tc) ==> tc.start@ <= tc.end@ && tc.end@
            <= max_duration_nanos(),
    ensures
        ({
            let t = before[index].text;
            let k = capped_index(t, char_index);
            merge_with_previous_spec(after, index + 1) == before.update(
                index,
                LineView { text: t.take(k) + seq!['\n'] + t.skip(k), timecode: before[index].timecode },
            )
        }),
{
    let t = before[index].text;
    let k = capped_index(t, char_index);
    let merged = merge_with_previous_spec(after, index + 1);
    let expected = before.update(
        index,
        LineView { text: t.take(k) + seq!['\n'] + t.skip(k), timecode: before[index].timecode },
    );
    if let Some(tc) = before[index].timecode {
        let l = after[index].timecode->0;
        let r = after[index + 1].timecode->0;
        lemma_split_point_within(tc.start@, tc.end@, k as nat, (t.len() - k) as nat);
        if l.end@ >= r.end@ {
            Duration::lemma_view_injective(l.end, r.end);
        }
        assert(merge_timecodes_spec(Some(l), Some(r)) == Some(tc));
    }
    assert(merged =~= expected);
}

/// Merging and splitting keep the number of lines in step: a merge removes
/// one line and a split that changes anything adds one.
pub proof fn law_line_counts(lines: Seq<LineView>, after_split: Seq<LineView>, index: int, char_index: int)
    requires
        is_split_line(lines, after_split, index, char_index),
    ensures
        0 < index < lines.len() ==> merge_with_previous_spec(lines, index).len() == lines.len() - 1,
        after_split.len() == lines.len() || after_split.len() == lines.len() + 1,
{
}

} // verus!
