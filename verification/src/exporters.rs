//! Writing subtitle files: the text of plain-text, SBV and SRT exports, the
//! choice of format by path, and the path rules of the save and export
//! dialogs. The caller writes the text to the file.

use vstd::prelude::*;
use crate::importers::ends_with_spec;
use crate::project::{LineView, ProjectState, SubtitleFileType, lines_view, opt_string_view};
use crate::text::{
    join_spec, lemma_join_push, append_chars, chars_of, decimal_spec, eq_ignore_ascii_case, eq_ignore_ascii_case_spec,
    push_decimal, string_from_chars,
};
use crate::timecode::{format_sbv_timecode, format_srt_timecode, sbv_timecode_text, srt_timecode_text};

verus! {

// ---------------------------------------------------------------------
// File contents
// ---------------------------------------------------------------------

/// The texts of the lines.
pub open spec fn texts_of(lines: Seq<LineView>) -> Seq<Seq<char>> {
    lines.map_values(|l: LineView| l.text)
}

/// The plain-text export: the texts separated by blank lines, with a final
/// newline when there is any line.
pub open spec fn txt_contents_spec(lines: Seq<LineView>) -> Seq<char> {
    if lines.len() == 0 {
        seq![]
    } else {
        join_spec(texts_of(lines), seq!['\n', '\n']) + seq!['\n']
    }
}

/// What an SBV or SRT export writes: the text up to the first line without a
/// time range, and the error naming that line, if any.
pub struct ExportText {
    pub contents: String,
    pub error: Option<String>,
}

/// The SBV block of a line: `start,end`, the text, and a blank line.
pub open spec fn sbv_block(line: LineView) -> Seq<char> {
    sbv_timecode_text(line.timecode->0.start@) + seq![','] + sbv_timecode_text(line.timecode->0.end@)
        + seq!['\n'] + line.text + seq!['\n', '\n']
}

/// The SRT block of line number `number`: the number, `start --> end`, the
/// text, and a blank line.
pub open spec fn srt_block(number: nat, line: LineView) -> Seq<char> {
    decimal_spec(number) + seq!['\n'] + srt_timecode_text(line.timecode->0.start@) + " --> "@
        + srt_timecode_text(line.timecode->0.end@) + seq!['\n'] + line.text + seq!['\n', '\n']
}

/// The blocks of the first `n` lines, in format `srt` or SBV.
pub open spec fn blocks_text(lines: Seq<LineView>, n: int, srt: bool) -> Seq<char>
    decreases n,
{
    if n <= 0 {
        seq![]
    } else {
        blocks_text(lines, n - 1, srt) + if srt {
            srt_block(n as nat, lines[n - 1])
        } else {
            sbv_block(lines[n - 1])
        }
    }
}

/// The message for a line without a time range (numbered from 1).
pub open spec fn missing_timecode_message(number: nat) -> Seq<char> {
    "Line "@ + decimal_spec(number) + " timecode is missing"@
}

/// Whether `r` is the timed export of `lines`: the blocks of all lines, or of
/// the lines before the first untimed one together with the error naming it.
pub open spec fn is_timed_export(r: ExportText, lines: Seq<LineView>, srt: bool) -> bool {
    let stop = if exists|i: int| 0 <= i < lines.len() && #[trigger] lines[i].timecode is None {
        choose|i: int|
            0 <= i < lines.len() && #[trigger] lines[i].timecode is None && forall|j: int|
                0 <= j < i ==> lines[j].timecode is Some
    } else {
        lines.len() as int
    };
    &&& r.contents@ == blocks_text(lines, stop, srt)
    &&& if stop < lines.len() {
        r.error is Some && r.error->0@ == missing_timecode_message((stop + 1) as nat)
    } else {
        r.error is None
    }
}

fn block_chars(line: &crate::project::SubtitleLine, tc: crate::timecode::TimecodeRange, number: u64, srt: bool) -> (r: Vec<char>)
    requires
        line.timecode == Some(tc),
    ensures
        r@ == if srt {
            srt_block(number as nat, line@)
        } else {
            sbv_block(line@)
        },
{
    let mut out: Vec<char> = Vec::new();
    if srt {
        push_decimal(&mut out, number, 0);
        out.push('\n');
        append_chars(&mut out, &chars_of(format_srt_timecode(tc.start).as_str()));
        append_chars(&mut out, &chars_of(" --> "));
        append_chars(&mut out, &chars_of(format_srt_timecode(tc.end).as_str()));
    } else {
        append_chars(&mut out, &chars_of(format_sbv_timecode(tc.start).as_str()));
        out.push(',');
        append_chars(&mut out, &chars_of(format_sbv_timecode(tc.end).as_str()));
    }
    out.push('\n');
    append_chars(&mut out, &chars_of(line.text.as_str()));
    out.push('\n');
    out.push('\n');
    proof {
        if srt {
            assert(out@ =~= srt_block(number as nat, line@));
        } else {
            assert(out@ =~= sbv_block(line@));
        }
    }
    out
}

proof fn lemma_first_untimed(lines: Seq<LineView>, idx: int)
    requires
        0 <= idx < lines.len(),
        lines[idx].timecode is None,
        forall|j: int| 0 <= j < idx ==> (#[trigger] lines[j]).timecode is Some,
    ensures
        (choose|i: int|
            0 <= i < lines.len() && #[trigger] lines[i].timecode is None && forall|j: int|
                0 <= j < i ==> lines[j].timecode is Some) == idx,
{
    let stop = choose|i: int|
        0 <= i < lines.len() && #[trigger] lines[i].timecode is None && forall|j: int|
            0 <= j < i ==> lines[j].timecode is Some;
    assert(0 <= idx < lines.len() && lines[idx].timecode is None && forall|j: int|
        0 <= j < idx ==> lines[j].timecode is Some);
    if stop < idx {
        assert(lines[stop].timecode is Some);
    } else if stop > idx {
        assert(lines[idx].timecode is Some);
    }
}

fn timed_export(project: &ProjectState, srt: bool) -> (r: ExportText)
    ensures
        is_timed_export(r, project@.lines, srt),
{
    let ghost lines = project@.lines;
    let mut out: Vec<char> = Vec::new();
    let mut idx: usize = 0;
    while idx < project.lines.len()
        invariant
            idx <= project.lines.len(),
            lines == project@.lines,
            lines.len() == project.lines.len(),
            out@ == blocks_text(lines, idx as int, srt),
            forall|j: int| 0 <= j < idx ==> (#[trigger] lines[j]).timecode is Some,
        decreases project.lines.len() - idx,
    {
        let line = &project.lines[idx];
        let tc = match line.timecode {
            Some(tc) => tc,
            None => {
                let mut msg = chars_of("Line ");
                push_decimal(&mut msg, idx as u64 + 1, 0);
                append_chars(&mut msg, &chars_of(" timecode is missing"));
                proof {
                    assert(lines[idx as int].timecode is None);
                    lemma_first_untimed(lines, idx as int);
                }
                return ExportText { contents: string_from_chars(&out), error: Some(string_from_chars(&msg)) };
            },
        };
        let block = block_chars(line, tc, idx as u64 + 1, srt);
        proof {
            assert(lines[idx as int] == line@);
        }
        append_chars(&mut out, &block);
        idx = idx + 1;
    }
    ExportText { contents: string_from_chars(&out), error: None }
}

/// The SBV export of a project.
pub fn export_sbv(project: &ProjectState) -> (r: ExportText)
    ensures
        is_timed_export(r, project@.lines, false),
{
    timed_export(project, false)
}

/// The SRT export of a project (lines numbered from 1).
pub fn export_srt(project: &ProjectState) -> (r: ExportText)
    ensures
        is_timed_export(r, project@.lines, true),
{
    timed_export(project, true)
}

/// The plain-text export of a project.
pub fn export_txt(project: &ProjectState) -> (r: String)
    ensures
        r@ == txt_contents_spec(project@.lines),
{
    let ghost texts = texts_of(project@.lines);
    let mut out: Vec<char> = Vec::new();
    let mut idx: usize = 0;
    while idx < project.lines.len()
        invariant
            idx <= project.lines.len(),
            texts == texts_of(project@.lines),
            texts.len() == project.lines.len(),
            out@ == join_spec(texts.take(idx as int), seq!['\n', '\n']),
        decreases project.lines.len() - idx,
    {
        proof {
            assert(texts.take(idx + 1) =~= texts.take(idx as int).push(texts[idx as int]));
            lemma_join_push(texts.take(idx as int), texts[idx as int], seq!['\n', '\n']);
            assert(texts[idx as int] == project.lines@[idx as int].text@);
        }
        let ghost before = out@;
        if idx > 0 {
            out.push('\n');
            out.push('\n');
            proof {
                assert(out@ =~= before + seq!['\n', '\n']);
            }
        }
        append_chars(&mut out, &chars_of(project.lines[idx].text.as_str()));
        idx = idx + 1;
    }
    proof {
        assert(texts.take(idx as int) =~= texts);
    }
    if project.lines.len() > 0 {
        out.push('\n');
    }
    string_from_chars(&out)
}

/// What exporting to a path writes.
pub enum ExportPlan {
    /// Plain text, complete.
    Txt(String),
    /// SBV or SRT text, possibly cut short by an error.
    Timed(ExportText),
    /// A project file, which the caller encodes.
    Seproj,
}

/// The format a path is exported as, by its end.
pub open spec fn export_kind_spec(path: Seq<char>) -> Option<SubtitleFileType> {
    if ends_with_spec(path, ".txt"@) {
        Some(SubtitleFileType::Txt)
    } else if ends_with_spec(path, ".sbv"@) {
        Some(SubtitleFileType::Sbv)
    } else if ends_with_spec(path, ".srt"@) {
        Some(SubtitleFileType::Srt)
    } else if ends_with_spec(path, ".seproj"@) {
        Some(SubtitleFileType::Seproj)
    } else {
        None
    }
}

/// What exporting a project to `path` writes, by the path's ending; an error
/// for an unknown ending.
pub fn export_file(project: &ProjectState, path: &str) -> (r: Result<ExportPlan, String>)
    ensures
        match export_kind_spec(path@) {
            None => r is Err && r->Err_0@ == "Unknown format to save as"@,
            Some(SubtitleFileType::Txt) => r matches Ok(ExportPlan::Txt(t)) && t@ == txt_contents_spec(project@.lines),
            Some(SubtitleFileType::Sbv) => r matches Ok(ExportPlan::Timed(t)) && is_timed_export(t, project@.lines, false),
            Some(SubtitleFileType::Srt) => r matches Ok(ExportPlan::Timed(t)) && is_timed_export(t, project@.lines, true),
            Some(SubtitleFileType::Seproj) => r matches Ok(ExportPlan::Seproj),
        },
{
    if crate::importers::ends_with(path, ".txt") {
        Ok(ExportPlan::Txt(export_txt(project)))
    } else if crate::importers::ends_with(path, ".sbv") {
        Ok(ExportPlan::Timed(export_sbv(project)))
    } else if crate::importers::ends_with(path, ".srt") {
        Ok(ExportPlan::Timed(export_srt(project)))
    } else if crate::importers::ends_with(path, ".seproj") {
        Ok(ExportPlan::Seproj)
    } else {
        Err(string_from_chars(&chars_of("Unknown format to save as")))
    }
}

// ---------------------------------------------------------------------
// Paths
// ---------------------------------------------------------------------

/// The extension of a path, as `Path::extension` finds it (the part of the
/// last component's name after its last dot, for names that are not dot
/// files), converted to text. Components are split by the path syntax of
/// the platform the library is built for.
pub uninterp spec fn path_extension_spec(path: Seq<char>) -> Option<Seq<char>>;

/// The extension of a path, from `std::path::Path::extension`. The contract
/// names the result, which depends on the path text alone.
#[verifier::external_body]
fn path_extension(path: &str) -> (r: Option<String>)
    ensures
        opt_string_view(r) == path_extension_spec(path@),
{
    std::path::Path::new(path).extension().and_then(|ext| ext.to_str()).map(|ext| ext.to_string())
}

/// The stem of a path's file name, as `Path::file_stem` finds it (the name
/// without its extension), as text, by the path syntax of the platform the
/// library is built for.
pub uninterp spec fn path_file_stem_spec(path: Seq<char>) -> Option<Seq<char>>;

/// The file stem of a path, from `std::path::Path::file_stem`. The contract
/// names the result, which depends on the path text alone.
#[verifier::external_body]
fn path_file_stem(path: &str) -> (r: Option<String>)
    ensures
        opt_string_view(r) == path_file_stem_spec(path@),
{
    std::path::Path::new(path).file_stem().and_then(|stem| stem.to_str()).map(|stem| stem.to_string())
}

/// Whether a path has the given extension, ignoring ASCII case.
pub open spec fn has_extension_spec(path: Seq<char>, extension: Seq<char>) -> bool {
    match path_extension_spec(path) {
        Some(e) => eq_ignore_ascii_case_spec(e, extension),
        None => false,
    }
}

/// Whether a path has the given extension, ignoring ASCII case.
pub fn has_extension(path: &str, extension: &str) -> (r: bool)
    ensures
        r == has_extension_spec(path@, extension@),
{
    match path_extension(path) {
        Some(e) => eq_ignore_ascii_case(&chars_of(e.as_str()), &chars_of(extension)),
        None => false,
    }
}

/// Whether a path has any extension.
pub fn has_any_extension(path: &str) -> (r: bool)
    ensures
        r == (path_extension_spec(path@) is Some),
{
    path_extension(path).is_some()
}

/// The path with `.extension` appended unless it already has that extension.
pub open spec fn ensure_extension_spec(path: Seq<char>, extension: Seq<char>) -> Seq<char> {
    if has_extension_spec(path, extension) {
        path
    } else {
        path + seq!['.'] + extension
    }
}

/// The path with `.extension` appended unless it already has it.
pub fn ensure_extension(path: String, extension: &str) -> (r: String)
    ensures
        r@ == ensure_extension_spec(path@, extension@),
{
    if has_extension(path.as_str(), extension) {
        path
    } else {
        let mut out = chars_of(path.as_str());
        out.push('.');
        append_chars(&mut out, &chars_of(extension));
        string_from_chars(&out)
    }
}

/// Whether a project has a line with a time range.
pub open spec fn has_timed_line(lines: Seq<LineView>) -> bool {
    exists|i: int| 0 <= i < lines.len() && #[trigger] lines[i].timecode is Some
}

/// The extension an export is offered with: the project's own format for
/// text, SBV and SRT projects; otherwise SBV when some line is timed, else text.
pub open spec fn default_export_extension_spec(p: ProjectState) -> Seq<char> {
    match p.file_type {
        Some(SubtitleFileType::Txt) => "txt"@,
        Some(SubtitleFileType::Sbv) => "sbv"@,
        Some(SubtitleFileType::Srt) => "srt"@,
        _ => if has_timed_line(p@.lines) {
            "sbv"@
        } else {
            "txt"@
        },
    }
}

/// The extension an export is offered with.
pub fn infer_default_export_extension(project: &ProjectState) -> (r: &'static str)
    ensures
        r@ == default_export_extension_spec(*project),
{
    match project.file_type {
        Some(SubtitleFileType::Txt) => "txt",
        Some(SubtitleFileType::Sbv) => "sbv",
        Some(SubtitleFileType::Srt) => "srt",
        _ => {
            let mut i: usize = 0;
            while i < project.lines.len()
                invariant
                    i <= project.lines.len(),
                    default_export_extension_spec(*project) == (if has_timed_line(project@.lines) {
                        "sbv"@
                    } else {
                        "txt"@
                    }),
                    forall|j: int| 0 <= j < i ==> (#[trigger] project@.lines[j]).timecode is None,
                decreases project.lines.len() - i,
            {
                if project.lines[i].timecode.is_some() {
                    proof {
                        assert(project@.lines[i as int].timecode is Some);
                        assert(has_timed_line(project@.lines));
                    }
                    return "sbv";
                }
                i = i + 1;
            }
            "txt"
        },
    }
}

/// The path an export is written to, from the path picked in the dialog:
/// kept when it ends in `.txt`, `.sbv` or `.srt`; an error for another
/// extension; the default extension appended when it has none.
pub open spec fn export_path_spec(raw: Seq<char>, default_ext: Seq<char>) -> Result<Seq<char>, Seq<char>> {
    if has_extension_spec(raw, "txt"@) || has_extension_spec(raw, "sbv"@) || has_extension_spec(raw, "srt"@) {
        Ok(raw)
    } else if path_extension_spec(raw) is Some {
        Err("Export supports only .txt, .sbv and .srt"@)
    } else {
        Ok(ensure_extension_spec(raw, default_ext))
    }
}

/// The path an export is written to, from the path picked in the dialog.
pub fn normalize_export_path(raw_path: String, default_ext: &str) -> (r: Result<String, String>)
    ensures
        match export_path_spec(raw_path@, default_ext@) {
            Ok(p) => r is Ok && r->Ok_0@ == p,
            Err(m) => r is Err && r->Err_0@ == m,
        },
{
    if has_extension(raw_path.as_str(), "txt") || has_extension(raw_path.as_str(), "sbv") || has_extension(
        raw_path.as_str(),
        "srt",
    ) {
        Ok(raw_path)
    } else if has_any_extension(raw_path.as_str()) {
        Err(string_from_chars(&chars_of("Export supports only .txt, .sbv and .srt")))
    } else {
        Ok(ensure_extension(raw_path, default_ext))
    }
}

/// The project-file path to save to without asking: the project's path, when
/// it has the `.seproj` extension.
pub fn seproj_target_path(project: &ProjectState) -> (r: Option<String>)
    ensures
        opt_string_view(r) == match opt_string_view(project.file_path) {
            Some(p) => if has_extension_spec(p, "seproj"@) {
                Some(p)
            } else {
                None
            },
            None => None,
        },
{
    match &project.file_path {
        Some(p) => if has_extension(p.as_str(), "seproj") {
            Some(p.clone())
        } else {
            None
        },
        None => None,
    }
}

/// The file name the save dialog suggests: the project's file stem with
/// `.seproj`, or `subtitle.seproj`.
pub open spec fn suggested_seproj_name_spec(file_path: Option<Seq<char>>) -> Seq<char> {
    match file_path {
        Some(p) => match path_file_stem_spec(p) {
            Some(stem) => stem + ".seproj"@,
            None => "subtitle.seproj"@,
        },
        None => "subtitle.seproj"@,
    }
}

/// The file name the save dialog suggests.
pub fn suggested_seproj_name(project: &ProjectState) -> (r: String)
    ensures
        r@ == suggested_seproj_name_spec(opt_string_view(project.file_path)),
{
    let stem = match &project.file_path {
        Some(p) => path_file_stem(p.as_str()),
        None => None,
    };
    match stem {
        Some(s) => {
            let mut out = chars_of(s.as_str());
            append_chars(&mut out, &chars_of(".seproj"));
            string_from_chars(&out)
        },
        None => string_from_chars(&chars_of("subtitle.seproj")),
    }
}

/// Records that a project was saved as a project file at `path` (with the
/// `.seproj` extension ensured); returns that path.
pub fn mark_saved_as_seproj(project: &mut ProjectState, path: String) -> (r: String)
    ensures
        r@ == ensure_extension_spec(path@, "seproj"@),
        final(project)@.lines == old(project)@.lines,
        opt_string_view(final(project).file_path) == Some(r@),
        final(project).file_type == Some(SubtitleFileType::Seproj),
{
    let path = ensure_extension(path, "seproj");
    project.file_path = Some(path.clone());
    project.file_type = Some(SubtitleFileType::Seproj);
    path
}

} // verus!
