//! The subtitle project: its lines, each with text and an optional time
//! range, and the file it came from.

use vstd::prelude::*;
use crate::timecode::TimecodeRange;

verus! {

/// The file formats the editor reads and writes.
#[derive(Clone, Copy, Debug, PartialEq, Eq, Structural)]
pub enum SubtitleFileType {
    Txt,
    Sbv,
    Srt,
    Seproj,
}

/// One subtitle: its text and, where the format has one, its time range.
#[derive(Clone, Debug)]
pub struct SubtitleLine {
    pub text: String,
    pub timecode: Option<TimecodeRange>,
}

/// What a subtitle line holds: its characters and its time range.
pub struct LineView {
    pub text: Seq<char>,
    pub timecode: Option<TimecodeRange>,
}

impl View for SubtitleLine {
    type V = LineView;

    open spec fn view(&self) -> LineView {
        LineView { text: self.text@, timecode: self.timecode }
    }
}

/// A loaded subtitle file: its lines, its format and its path.
#[derive(Clone, Debug)]
pub struct ProjectState {
    pub lines: Vec<SubtitleLine>,
    pub file_type: Option<SubtitleFileType>,
    pub file_path: Option<String>,
}

/// What a project holds.
pub struct ProjectView {
    pub lines: Seq<LineView>,
    pub file_type: Option<SubtitleFileType>,
    pub file_path: Option<Seq<char>>,
}

/// The views of a sequence of lines.
pub open spec fn lines_view(lines: Seq<SubtitleLine>) -> Seq<LineView> {
    lines.map_values(|l: SubtitleLine| l@)
}

/// The view of an optional string.
pub open spec fn opt_string_view(s: Option<String>) -> Option<Seq<char>> {
    match s {
        Some(x) => Some(x@),
        None => None,
    }
}

impl View for ProjectState {
    type V = ProjectView;

    open spec fn view(&self) -> ProjectView {
        ProjectView {
            lines: lines_view(self.lines@),
            file_type: self.file_type,
            file_path: opt_string_view(self.file_path),
        }
    }
}

impl Default for ProjectState {
    fn default() -> (p: ProjectState)
        ensures
            p@.lines.len() == 0,
            p.file_type is None,
            p.file_path is None,
    {
        ProjectState { lines: Vec::new(), file_type: None, file_path: None }
    }
}

/// A copy of an optional string.
pub fn copy_opt_string(s: &Option<String>) -> (r: Option<String>)
    ensures
        opt_string_view(r) == opt_string_view(*s),
{
    match s {
        Some(x) => Some(x.clone()),
        None => None,
    }
}

impl SubtitleLine {
    /// A copy of this line.
    pub fn copy(&self) -> (r: SubtitleLine)
        ensures
            r@ == self@,
    {
        SubtitleLine { text: self.text.clone(), timecode: self.timecode }
    }
}

/// A copy of a list of lines.
pub fn copy_lines(lines: &Vec<SubtitleLine>) -> (r: Vec<SubtitleLine>)
    ensures
        lines_view(r@) == lines_view(lines@),
{
    let mut r: Vec<SubtitleLine> = Vec::new();
    let mut i: usize = 0;
    while i < lines.len()
        invariant
            i <= lines.len(),
            r@.len() == i,
            forall|j: int| 0 <= j < i ==> (#[trigger] r@[j])@ == lines@[j]@,
        decreases lines.len() - i,
    {
        r.push(lines[i].copy());
        i = i + 1;
    }
    proof {
        assert(lines_view(r@) =~= lines_view(lines@));
    }
    r
}

impl ProjectState {
    /// A copy of this project.
    pub fn copy(&self) -> (r: ProjectState)
        ensures
            r@ == self@,
    {
        ProjectState {
            lines: copy_lines(&self.lines),
            file_type: self.file_type,
            file_path: copy_opt_string(&self.file_path),
        }
    }
}

/// Whether two optional strings hold the same text.
pub fn opt_string_eq(a: &Option<String>, b: &Option<String>) -> (r: bool)
    ensures
        r == (opt_string_view(*a) == opt_string_view(*b)),
{
    match (a, b) {
        (Some(x), Some(y)) => x.eq(y),
        (None, None) => true,
        _ => false,
    }
}

/// Whether two lines hold the same text and time range.
pub fn line_eq(a: &SubtitleLine, b: &SubtitleLine) -> (r: bool)
    ensures
        r == (a@ == b@),
{
    a.text == b.text && a.timecode == b.timecode
}

/// Whether two projects hold the same lines, format and path.
pub fn project_eq(a: &ProjectState, b: &ProjectState) -> (r: bool)
    ensures
        r == (a@ == b@),
{
    if a.file_type != b.file_type || !opt_string_eq(&a.file_path, &b.file_path) {
        return false;
    }
    if a.lines.len() != b.lines.len() {
        proof {
            assert(lines_view(a.lines@).len() != lines_view(b.lines@).len());
        }
        return false;
    }
    let mut i: usize = 0;
    while i < a.lines.len()
        invariant
            a.lines.len() == b.lines.len(),
            i <= a.lines.len(),
            forall|j: int| 0 <= j < i ==> a.lines@[j]@ == b.lines@[j]@,
        decreases a.lines.len() - i,
    {
        if !line_eq(&a.lines[i], &b.lines[i]) {
            proof {
                assert(lines_view(a.lines@)[i as int] != lines_view(b.lines@)[i as int]);
            }
            return false;
        }
        i = i + 1;
    }
    proof {
        assert(lines_view(a.lines@) =~= lines_view(b.lines@));
    }
    true
}

} // verus!
