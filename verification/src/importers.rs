//! Reading subtitle files: plain text (blocks separated by blank lines),
//! SBV (a time range line, then the text lines of the block) and project
//! files. The file itself is read by the caller; this module turns its lines,
//! or the decoded project, into a project.

use vstd::prelude::*;
use crate::project::{LineView, ProjectState, ProjectView, SubtitleFileType, SubtitleLine, lines_view, opt_string_view};
use crate::text::{
    append_chars, chars_of, join_chars, join_spec, string_from_chars, trim_chars, trim_spec,
};
use crate::timecode::{TimecodeRange, parse_range_spec, parse_sbv_time_range, range_parsed_as};

verus! {

/// Whether `s` ends with `suffix`.
pub open spec fn ends_with_spec(s: Seq<char>, suffix: Seq<char>) -> bool {
    s.len() >= suffix.len() && s.skip(s.len() - suffix.len()) == suffix
}

/// Whether `s` ends with `suffix`, as `str::ends_with` decides.
pub fn ends_with(s: &str, suffix: &str) -> (r: bool)
    ensures
        r == ends_with_spec(s@, suffix@),
{
    let a = chars_of(s);
    let b = chars_of(suffix);
    if b.len() > a.len() {
        return false;
    }
    let tail = crate::text::subrange_vec(&a, a.len() - b.len(), a.len());
    proof {
        assert(tail@ =~= a@.skip(a@.len() - b@.len()));
    }
    crate::text::chars_eq(&tail, &b)
}

/// The format a file is read as, by the end of its path.
pub open spec fn import_kind_spec(path: Seq<char>) -> Option<SubtitleFileType> {
    if ends_with_spec(path, ".txt"@) {
        Some(SubtitleFileType::Txt)
    } else if ends_with_spec(path, ".sbv"@) {
        Some(SubtitleFileType::Sbv)
    } else if ends_with_spec(path, ".seproj"@) {
        Some(SubtitleFileType::Seproj)
    } else {
        None
    }
}

/// The format a file is read as: `.txt`, `.sbv` or `.seproj`.
pub fn import_kind(path: &str) -> (r: Option<SubtitleFileType>)
    ensures
        r == import_kind_spec(path@),
{
    if ends_with(path, ".txt") {
        Some(SubtitleFileType::Txt)
    } else if ends_with(path, ".sbv") {
        Some(SubtitleFileType::Sbv)
    } else if ends_with(path, ".seproj") {
        Some(SubtitleFileType::Seproj)
    } else {
        None
    }
}

/// The blocks of a file: its trimmed non-blank lines, grouped into maximal
/// runs between blank lines. Returns the finished blocks and the open one.
pub open spec fn blocks_fold(lines: Seq<Seq<char>>) -> (Seq<Seq<Seq<char>>>, Seq<Seq<char>>)
    decreases lines.len(),
{
    if lines.len() == 0 {
        (seq![], seq![])
    } else {
        let (done, cur) = blocks_fold(lines.drop_last());
        let t = trim_spec(lines.last());
        if t.len() == 0 {
            if cur.len() > 0 {
                (done.push(cur), seq![])
            } else {
                (done, cur)
            }
        } else {
            (done, cur.push(t))
        }
    }
}

/// The blocks of a file: maximal runs of trimmed non-blank lines.
pub open spec fn blocks_spec(lines: Seq<Seq<char>>) -> Seq<Seq<Seq<char>>> {
    let (done, cur) = blocks_fold(lines);
    if cur.len() > 0 {
        done.push(cur)
    } else {
        done
    }
}

/// The views of a vector of strings.
pub open spec fn strings_view(v: Seq<String>) -> Seq<Seq<char>> {
    v.map_values(|s: String| s@)
}

/// The views of a vector of character vectors.
pub open spec fn chars_view(v: Seq<Vec<char>>) -> Seq<Seq<char>> {
    v.map_values(|s: Vec<char>| s@)
}

/// Every block holds at least one line.
pub proof fn lemma_blocks_nonempty(lines: Seq<Seq<char>>)
    ensures
        forall|j: int| 0 <= j < blocks_fold(lines).0.len() ==> (#[trigger] blocks_fold(lines).0[j]).len() > 0,
        forall|j: int| 0 <= j < blocks_spec(lines).len() ==> (#[trigger] blocks_spec(lines)[j]).len() > 0,
    decreases lines.len(),
{
    if lines.len() > 0 {
        lemma_blocks_nonempty(lines.drop_last());
        let (done, cur) = blocks_fold(lines.drop_last());
        let (d2, c2) = blocks_fold(lines);
        assert forall|j: int| 0 <= j < d2.len() implies (#[trigger] d2[j]).len() > 0 by {
            if j < done.len() {
                assert(d2[j] == done[j]);
            }
        }
    }
    let (d, c) = blocks_fold(lines);
    assert forall|j: int| 0 <= j < blocks_spec(lines).len() implies (#[trigger] blocks_spec(lines)[j]).len() > 0 by {
        if j < d.len() {
            assert(blocks_spec(lines)[j] == d[j]);
        }
    }
}

/// The finished blocks once the open one, if any, is closed.
pub open spec fn closed_blocks(fold: (Seq<Seq<Seq<char>>>, Seq<Seq<char>>)) -> Seq<Seq<Seq<char>>> {
    if fold.1.len() > 0 {
        fold.0.push(fold.1)
    } else {
        fold.0
    }
}

/// Folding lines after lines that leave no block open starts afresh.
pub proof fn lemma_blocks_fold_append(x: Seq<Seq<char>>, y: Seq<Seq<char>>)
    requires
        blocks_fold(x).1.len() == 0,
    ensures
        blocks_fold(x + y) == (blocks_fold(x).0 + blocks_fold(y).0, blocks_fold(y).1),
    decreases y.len(),
{
    if y.len() == 0 {
        assert(x + y =~= x);
        assert(blocks_fold(x).0 + Seq::<Seq<Seq<char>>>::empty() =~= blocks_fold(x).0);
    } else {
        let y1 = y.drop_last();
        lemma_blocks_fold_append(x, y1);
        assert((x + y).drop_last() =~= x + y1);
        assert((x + y).last() == y.last());
        let (d, c) = blocks_fold(y1);
        let dx = blocks_fold(x).0;
        assert((dx + d).push(c) =~= dx + d.push(c));
    }
}

/// A run of non-blank trimmed lines is one open block.
pub proof fn lemma_blocks_fold_run(w: Seq<Seq<char>>)
    requires
        forall|k: int| 0 <= k < w.len() ==> (#[trigger] w[k]).len() > 0 && trim_spec(w[k]) == w[k],
    ensures
        blocks_fold(w) == (Seq::<Seq<Seq<char>>>::empty(), w),
    decreases w.len(),
{
    if w.len() > 0 {
        let w1 = w.drop_last();
        assert forall|k: int| 0 <= k < w1.len() implies (#[trigger] w1[k]).len() > 0 && trim_spec(w1[k]) == w1[k] by {
            assert(w1[k] == w[k]);
        }
        lemma_blocks_fold_run(w1);
        assert(w1.push(w.last()) =~= w);
    }
}

/// Blank lines close the open block and leave none open.
pub proof fn lemma_blocks_fold_blanks(x: Seq<Seq<char>>, e: Seq<Seq<char>>)
    requires
        e.len() > 0,
        forall|k: int| 0 <= k < e.len() ==> trim_spec(#[trigger] e[k]).len() == 0,
    ensures
        blocks_fold(x + e) == (closed_blocks(blocks_fold(x)), Seq::<Seq<char>>::empty()),
    decreases e.len(),
{
    assert((x + e).drop_last() =~= x + e.drop_last());
    assert((x + e).last() == e[e.len() - 1]);
    if e.len() == 1 {
        assert(x + e.drop_last() =~= x);
    } else {
        let e1 = e.drop_last();
        assert forall|k: int| 0 <= k < e1.len() implies trim_spec(#[trigger] e1[k]).len() == 0 by {
            assert(e1[k] == e[k]);
        }
        lemma_blocks_fold_blanks(x, e1);
    }
}

/// The blocks of the lines of a file.
pub fn text_blocks(raw_lines: &Vec<String>) -> (r: Vec<Vec<Vec<char>>>)
    ensures
        r@.map_values(|b: Vec<Vec<char>>| chars_view(b@)) == blocks_spec(strings_view(raw_lines@)),
{
    let ghost lv = strings_view(raw_lines@);
    let mut done: Vec<Vec<Vec<char>>> = Vec::new();
    let mut cur: Vec<Vec<char>> = Vec::new();
    let mut i: usize = 0;
    while i < raw_lines.len()
        invariant
            i <= raw_lines.len(),
            lv == strings_view(raw_lines@),
            (done@.map_values(|b: Vec<Vec<char>>| chars_view(b@)), chars_view(cur@)) == blocks_fold(lv.take(i as int)),
        decreases raw_lines.len() - i,
    {
        proof {
            assert(lv.take(i + 1).drop_last() =~= lv.take(i as int));
            assert(lv.take(i + 1).last() == raw_lines@[i as int]@);
        }
        let ghost dv = done@.map_values(|b: Vec<Vec<char>>| chars_view(b@));
        let ghost cv = chars_view(cur@);
        let t = trim_chars(&chars_of(raw_lines[i].as_str()));
        if t.len() == 0 {
            if cur.len() > 0 {
                let finished = cur;
                cur = Vec::new();
                done.push(finished);
                proof {
                    assert(done@.map_values(|b: Vec<Vec<char>>| chars_view(b@)) =~= dv.push(cv));
                    assert(chars_view(cur@) =~= Seq::<Seq<char>>::empty());
                }
            }
        } else {
            cur.push(t);
            proof {
                assert(chars_view(cur@) =~= cv.push(t@));
            }
        }
        i = i + 1;
    }
    proof {
        assert(lv.take(i as int) =~= lv);
    }
    if cur.len() > 0 {
        let ghost dv = done@.map_values(|b: Vec<Vec<char>>| chars_view(b@));
        let ghost cv = chars_view(cur@);
        done.push(cur);
        proof {
            assert(done@.map_values(|b: Vec<Vec<char>>| chars_view(b@)) =~= dv.push(cv));
        }
    }
    done
}

/// The text of a block of lines: the lines joined by newlines.
pub open spec fn block_text(block: Seq<Seq<char>>) -> Seq<char> {
    join_spec(block, seq!['\n'])
}

/// The lines of a plain-text file: one subtitle per block, without time ranges.
pub open spec fn import_txt_spec(lines: Seq<Seq<char>>) -> Seq<LineView> {
    blocks_spec(lines).map_values(|b: Seq<Seq<char>>| LineView { text: block_text(b), timecode: None })
}

/// Reads the lines of a plain-text file.
pub fn import_txt(raw_lines: &Vec<String>) -> (r: Vec<SubtitleLine>)
    ensures
        lines_view(r@) == import_txt_spec(strings_view(raw_lines@)),
{
    let blocks = text_blocks(raw_lines);
    let ghost bv = blocks@.map_values(|b: Vec<Vec<char>>| chars_view(b@));
    let sep = vec!['\n'];
    proof {
        assert(sep@ =~= seq!['\n']);
    }
    let mut out: Vec<SubtitleLine> = Vec::new();
    let mut k: usize = 0;
    while k < blocks.len()
        invariant
            k <= blocks.len(),
            sep@ == seq!['\n'],
            bv == blocks@.map_values(|b: Vec<Vec<char>>| chars_view(b@)),
            out@.len() == k,
            forall|j: int| 0 <= j < k ==> (#[trigger] out@[j])@ == (LineView { text: block_text(bv[j]), timecode: None }),
        decreases blocks.len() - k,
    {
        let text = join_chars(&blocks[k], &sep);
        out.push(SubtitleLine { text: string_from_chars(&text), timecode: None });
        k = k + 1;
    }
    proof {
        assert(lines_view(out@) =~= import_txt_spec(strings_view(raw_lines@)));
    }
    out
}

/// The index of the first block whose first line is not an SBV time range.
pub open spec fn first_bad_sbv_block(blocks: Seq<Seq<Seq<char>>>) -> Option<int>
    decreases blocks.len(),
{
    if blocks.len() == 0 {
        None
    } else {
        match first_bad_sbv_block(blocks.drop_last()) {
            Some(k) => Some(k),
            None => if parse_range_spec(blocks.last()[0], seq![','], '.') is None {
                Some(blocks.len() - 1)
            } else {
                None
            },
        }
    }
}

/// The message for a block whose first line is not an SBV time range.
pub open spec fn bad_sbv_message(line: Seq<char>) -> Seq<char> {
    "Некорректная строка тайм-кода SBV: "@ + line
}

/// Whether `line` is the subtitle an SBV block gives: the time range of its
/// first line and the text of the rest.
pub open spec fn is_sbv_line(block: Seq<Seq<char>>, line: LineView) -> bool {
    &&& line.text == block_text(block.drop_first())
    &&& line.timecode is Some
    &&& range_parsed_as(line.timecode, parse_range_spec(block[0], seq![','], '.'))
}

/// Reads the lines of an SBV file; an error names the first time range line
/// that does not parse.
pub fn import_sbv(raw_lines: &Vec<String>) -> (r: Result<Vec<SubtitleLine>, String>)
    ensures
        ({
            let blocks = blocks_spec(strings_view(raw_lines@));
            match first_bad_sbv_block(blocks) {
                Some(k) => r is Err && r->Err_0@ == bad_sbv_message(blocks[k][0]),
                None => r is Ok && r->Ok_0@.len() == blocks.len() && forall|j: int|
                    0 <= j < blocks.len() ==> is_sbv_line(blocks[j], #[trigger] r->Ok_0@[j]@),
            }
        }),
{
    let blocks = text_blocks(raw_lines);
    let ghost bv = blocks@.map_values(|b: Vec<Vec<char>>| chars_view(b@));
    let sep = vec!['\n'];
    proof {
        assert(sep@ =~= seq!['\n']);
        lemma_blocks_nonempty(strings_view(raw_lines@));
        assert(bv.take(0) =~= Seq::<Seq<Seq<char>>>::empty());
    }
    let mut out: Vec<SubtitleLine> = Vec::new();
    let mut k: usize = 0;
    while k < blocks.len()
        invariant
            k <= blocks.len(),
            sep@ == seq!['\n'],
            bv == blocks@.map_values(|b: Vec<Vec<char>>| chars_view(b@)),
            bv == blocks_spec(strings_view(raw_lines@)),
            first_bad_sbv_block(bv.take(k as int)) is None,
            out@.len() == k,
            forall|j: int| 0 <= j < k ==> is_sbv_line(bv[j], #[trigger] out@[j]@),
            forall|j: int| 0 <= j < bv.len() ==> (#[trigger] bv[j]).len() > 0,
        decreases blocks.len() - k,
    {
        proof {
            assert(bv.take(k + 1).drop_last() =~= bv.take(k as int));
            assert(bv.take(k + 1).last() == bv[k as int]);
            assert(bv[k as int].len() > 0);
        }
        let block = &blocks[k];
        let first = string_from_chars(&block[0]);
        let timecode = match parse_sbv_time_range(first.as_str()) {
            Some(tc) => tc,
            None => {
                proof {
                    lemma_first_bad_prefix(bv, k as int);
                }
                let mut msg = chars_of("Некорректная строка тайм-кода SBV: ");
                append_chars(&mut msg, &block[0]);
                return Err(string_from_chars(&msg));
            },
        };
        let rest = crate::text::subrange_vec_of_vecs(block, 1, block.len());
        let text = join_chars(&rest, &sep);
        proof {
            assert(chars_view(rest@) =~= bv[k as int].drop_first());
        }
        out.push(SubtitleLine { text: string_from_chars(&text), timecode: Some(timecode) });
        k = k + 1;
    }
    proof {
        assert(bv.take(k as int) =~= bv);
    }
    Ok(out)
}

proof fn lemma_first_bad_prefix(blocks: Seq<Seq<Seq<char>>>, k: int)
    requires
        0 <= k < blocks.len(),
        first_bad_sbv_block(blocks.take(k)) is None,
        parse_range_spec(blocks[k][0], seq![','], '.') is None,
    ensures
        first_bad_sbv_block(blocks) == Some(k),
    decreases blocks.len() - k,
{
    if k + 1 == blocks.len() {
        assert(blocks.drop_last() =~= blocks.take(k));
    } else {
        assert(blocks.drop_last().take(k) =~= blocks.take(k));
        assert(blocks.drop_last()[k] == blocks[k]);
        lemma_first_bad_prefix(blocks.drop_last(), k);
    }
}

/// What was read from a file: its lines, or the project a project file holds.
pub enum ImportedContent {
    Lines(Vec<String>),
    Project(ProjectState),
}

/// The message for a file that is not read.
pub open spec fn unknown_import_message() -> Seq<char> {
    "Неизвестный формат файла"@
}

/// A project read from a project file, with the path and format filled in
/// where it names none.
pub fn complete_seproj_import(project: ProjectState, path: &str) -> (r: ProjectState)
    ensures
        r@.lines == project@.lines,
        r@.file_path == if project.file_path is None {
            Some(path@)
        } else {
            opt_string_view(project.file_path)
        },
        r.file_type == if project.file_type is None {
            Some(SubtitleFileType::Seproj)
        } else {
            project.file_type
        },
{
    let mut project = project;
    if project.file_path.is_none() {
        project.file_path = Some(string_from_chars(&chars_of(path)));
    }
    if project.file_type.is_none() {
        project.file_type = Some(SubtitleFileType::Seproj);
    }
    project
}

/// Builds the project for a file from what was read from it: plain text and
/// SBV from their lines, project files from the decoded project. A path of
/// another format, or content that does not suit the path's format, gives
/// the unknown-format error.
pub fn import_file(path: &str, content: ImportedContent) -> (r: Result<ProjectState, String>)
    ensures
        match (import_kind_spec(path@), content) {
            (Some(SubtitleFileType::Txt), ImportedContent::Lines(l)) => r is Ok && r->Ok_0@ == (ProjectView {
                lines: import_txt_spec(strings_view(l@)),
                file_type: Some(SubtitleFileType::Txt),
                file_path: Some(path@),
            }),
            (Some(SubtitleFileType::Sbv), ImportedContent::Lines(l)) => {
                let blocks = blocks_spec(strings_view(l@));
                match first_bad_sbv_block(blocks) {
                    Some(k) => r is Err && r->Err_0@ == bad_sbv_message(blocks[k][0]),
                    None => r is Ok && r->Ok_0.file_type == Some(SubtitleFileType::Sbv)
                        && r->Ok_0@.file_path == Some(path@) && r->Ok_0@.lines.len() == blocks.len()
                        && forall|j: int| 0 <= j < blocks.len() ==> is_sbv_line(blocks[j], #[trigger] r->Ok_0@.lines[j]),
                }
            },
            (Some(SubtitleFileType::Seproj), ImportedContent::Project(p)) => r is Ok && r->Ok_0@.lines == p@.lines
                && r->Ok_0@.file_path == (if p.file_path is None { Some(path@) } else { opt_string_view(p.file_path) })
                && r->Ok_0.file_type == (if p.file_type is None { Some(SubtitleFileType::Seproj) } else { p.file_type }),
            _ => r is Err && r->Err_0@ == unknown_import_message(),
        },
{
    let kind = import_kind(path);
    match (kind, content) {
        (Some(SubtitleFileType::Txt), ImportedContent::Lines(l)) => {
            let lines = import_txt(&l);
            Ok(ProjectState {
                lines,
                file_type: Some(SubtitleFileType::Txt),
                file_path: Some(string_from_chars(&chars_of(path))),
            })
        },
        (Some(SubtitleFileType::Sbv), ImportedContent::Lines(l)) => {
            match import_sbv(&l) {
                Ok(lines) => {
                    let p = ProjectState {
                        lines,
                        file_type: Some(SubtitleFileType::Sbv),
                        file_path: Some(string_from_chars(&chars_of(path))),
                    };
                    Ok(p)
                },
                Err(e) => Err(e),
            }
        },
        (Some(SubtitleFileType::Seproj), ImportedContent::Project(p)) => Ok(complete_seproj_import(p, path)),
        _ => Err(string_from_chars(&chars_of("Неизвестный формат файла"))),
    }
}

} // verus!
