//! What reading back a written file gives: the SBV and plain-text files that
//! the exporters write are read by the importers as the lines they were
//! written from, as far as the formats can carry them.

use vstd::prelude::*;
use crate::duration::Duration;
use crate::exporters::{ExportText, blocks_text, is_timed_export, sbv_block, srt_block, texts_of, txt_contents_spec};
use crate::importers::{
    block_text, blocks_fold, blocks_spec, closed_blocks, first_bad_sbv_block, import_txt_spec, is_sbv_line,
    lemma_blocks_fold_append, lemma_blocks_fold_blanks, lemma_blocks_fold_run,
};
use crate::project::LineView;
use crate::text::{
    decimal_spec, is_whitespace_spec, join_spec, lemma_join_append, lemma_join_push, lemma_join_split,
    lemma_lines_of_terminated, lemma_split_char_nonempty, lemma_split_no_separator,
    lemma_split_once_at_char, lemma_split_once_at_pattern, lemma_trim_ends, lemma_trim_identity,
    lemma_trim_padded, lines_spec, split_char_spec, split_once_spec,
    strip_cr, trim_spec,
};
use crate::timecode::{
    TimecodeRange, law_sbv_timecode_roundtrip, law_srt_timecode_roundtrip, lemma_clock_text_shape,
    parse_range_spec, range_parsed_as, sbv_timecode_text, srt_timecode_text, u64_max, wrapped_millis,
};

verus! {

/// A subtitle text that a file carries unchanged: empty, or lines that are
/// each non-blank and without leading or trailing whitespace.
pub open spec fn is_reimportable_text(text: Seq<char>) -> bool {
    text.len() == 0 || forall|k: int|
        0 <= k < split_char_spec(text, '\n').len() ==> (#[trigger] split_char_spec(text, '\n')[k]).len() > 0
            && trim_spec(split_char_spec(text, '\n')[k]) == split_char_spec(text, '\n')[k]
}

/// The time range line of the SBV block of a timed line.
pub open spec fn sbv_range_text(line: LineView) -> Seq<char> {
    sbv_timecode_text(line.timecode->0.start@) + seq![','] + sbv_timecode_text(line.timecode->0.end@)
}

/// The file lines of the SBV block of a line: the range line, the text lines
/// and a blank line.
pub open spec fn sbv_segment(line: LineView) -> Seq<Seq<char>> {
    seq![sbv_range_text(line)] + split_char_spec(line.text, '\n') + seq![seq![]]
}

/// The block that the SBV block of a line is read as.
pub open spec fn sbv_block_lines(line: LineView) -> Seq<Seq<char>> {
    seq![sbv_range_text(line)] + if line.text.len() == 0 {
        Seq::<Seq<char>>::empty()
    } else {
        split_char_spec(line.text, '\n')
    }
}

/// The file lines of the SBV export of the first `n` lines.
pub open spec fn sbv_file_lines(lines: Seq<LineView>, n: int) -> Seq<Seq<char>>
    decreases n,
{
    if n <= 0 {
        seq![]
    } else {
        sbv_file_lines(lines, n - 1) + sbv_segment(lines[n - 1])
    }
}

/// The file lines of the plain-text export of the first `n` lines, each
/// text followed by a blank line.
pub open spec fn txt_file_lines(lines: Seq<LineView>, n: int) -> Seq<Seq<char>>
    decreases n,
{
    if n <= 0 {
        seq![]
    } else {
        txt_file_lines(lines, n - 1) + split_char_spec(lines[n - 1].text, '\n') + seq![seq![]]
    }
}

proof fn lemma_digit_not_space(c: char)
    requires
        '0' <= c && c <= '9',
    ensures
        !is_whitespace_spec(c),
        c != '\n' && c != '\r',
{
}

/// The range line of a timed line is trimmed and holds no line break.
proof fn lemma_sbv_range_text_shape(line: LineView)
    requires
        line.timecode is Some,
    ensures
        sbv_range_text(line).len() > 0,
        trim_spec(sbv_range_text(line)) == sbv_range_text(line),
        strip_cr(sbv_range_text(line)) == sbv_range_text(line),
        forall|i: int| 0 <= i < sbv_range_text(line).len() ==> #[trigger] sbv_range_text(line)[i] != '\n',
{
    let d1 = line.timecode->0.start@;
    let d2 = line.timecode->0.end@;
    let a = sbv_timecode_text(d1);
    let b = sbv_timecode_text(d2);
    lemma_clock_text_shape(wrapped_millis(d1), 0, '.');
    lemma_clock_text_shape(wrapped_millis(d2), 0, '.');
    lemma_digit_not_space(a[0]);
    lemma_digit_not_space(b.last());
    let l = sbv_range_text(line);
    assert(l[0] == a[0]);
    assert(l.last() == b.last());
    lemma_trim_identity(l);
    assert forall|i: int| 0 <= i < l.len() implies #[trigger] l[i] != '\n' by {
        if i < a.len() {
            assert(l[i] == a[i]);
            assert('0' <= a[i] && a[i] <= '9' || a[i] == ':' || a[i] == '.');
        } else if i > a.len() {
            assert(l[i] == b[i - a.len() - 1]);
            assert('0' <= b[i - a.len() - 1] && b[i - a.len() - 1] <= '9' || b[i - a.len() - 1] == ':'
                || b[i - a.len() - 1] == '.');
        }
    }
}

/// The range line of a timed line reads back as the whole milliseconds of
/// its range.
proof fn lemma_sbv_range_text_parse(line: LineView)
    requires
        line.timecode is Some,
    ensures
        parse_range_spec(sbv_range_text(line), seq![','], '.') == Some(
            (
                wrapped_millis(line.timecode->0.start@),
                wrapped_millis(line.timecode->0.end@),
            ),
        ),
{
    let d1 = line.timecode->0.start@;
    let d2 = line.timecode->0.end@;
    let a = sbv_timecode_text(d1);
    let b = sbv_timecode_text(d2);
    lemma_clock_text_shape(wrapped_millis(d1), 0, '.');
    lemma_clock_text_shape(wrapped_millis(d2), 0, '.');
    law_sbv_timecode_roundtrip(d1);
    law_sbv_timecode_roundtrip(d2);
    lemma_digit_not_space(a[0]);
    lemma_digit_not_space(a.last());
    lemma_digit_not_space(b[0]);
    lemma_digit_not_space(b.last());
    assert forall|i: int| 0 <= i < a.len() implies a[i] != ',' by {
        assert('0' <= a[i] && a[i] <= '9' || a[i] == ':' || a[i] == '.');
    }
    lemma_split_once_at_char(a, ',', b);
    lemma_trim_identity(a);
    lemma_trim_identity(b);
}

/// The pieces of a reimportable text hold no line break and do not end in a
/// carriage return.
proof fn lemma_text_pieces(text: Seq<char>)
    requires
        is_reimportable_text(text),
    ensures
        split_char_spec(text, '\n').len() > 0,
        forall|k: int, i: int|
            0 <= k < split_char_spec(text, '\n').len() && 0 <= i < split_char_spec(text, '\n')[k].len()
                ==> #[trigger] split_char_spec(text, '\n')[k][i] != '\n',
        forall|k: int|
            0 <= k < split_char_spec(text, '\n').len() ==> strip_cr(#[trigger] split_char_spec(text, '\n')[k])
                == split_char_spec(text, '\n')[k],
{
    let p = split_char_spec(text, '\n');
    lemma_split_char_nonempty(text, '\n');
    lemma_split_no_separator(text, '\n');
    assert forall|k: int| 0 <= k < p.len() implies strip_cr(#[trigger] p[k]) == p[k] by {
        if text.len() == 0 {
            assert(p =~= seq![Seq::<char>::empty()]);
        } else {
            lemma_trim_ends(p[k]);
            assert(is_whitespace_spec('\r'));
        }
    }
}

proof fn lemma_sbv_segment_fold(line: LineView)
    requires
        line.timecode is Some,
        is_reimportable_text(line.text),
    ensures
        blocks_fold(sbv_segment(line)) == (seq![sbv_block_lines(line)], Seq::<Seq<char>>::empty()),
{
    let p = split_char_spec(line.text, '\n');
    let e: Seq<char> = seq![];
    lemma_sbv_range_text_shape(line);
    lemma_split_char_nonempty(line.text, '\n');
    let w = sbv_block_lines(line);
    let blanks: Seq<Seq<char>> = if line.text.len() == 0 {
        seq![e, e]
    } else {
        seq![e]
    };
    if line.text.len() == 0 {
        assert(p =~= seq![e]);
    }
    assert(sbv_segment(line) =~= w + blanks);
    assert forall|k: int| 0 <= k < w.len() implies (#[trigger] w[k]).len() > 0 && trim_spec(w[k]) == w[k] by {
        if k > 0 {
            assert(w[k] == p[k - 1]);
        }
    }
    lemma_blocks_fold_run(w);
    assert forall|k: int| 0 <= k < blanks.len() implies trim_spec(#[trigger] blanks[k]).len() == 0 by {
        assert(blanks[k] == e);
    }
    lemma_blocks_fold_blanks(w, blanks);
    assert(closed_blocks(blocks_fold(w)) =~= seq![w]);
}

proof fn lemma_sbv_segment_join(line: LineView)
    requires
        line.timecode is Some,
    ensures
        join_spec(sbv_segment(line), seq!['\n']) + seq!['\n'] == sbv_block(line),
{
    let l = sbv_range_text(line);
    let p = split_char_spec(line.text, '\n');
    let e: Seq<char> = seq![];
    lemma_split_char_nonempty(line.text, '\n');
    let tail = p + seq![e];
    assert(sbv_segment(line) =~= seq![l] + tail);
    lemma_join_append(seq![l], tail, seq!['\n']);
    assert(tail =~= p.push(e));
    lemma_join_push(p, e, seq!['\n']);
    lemma_join_split(line.text, '\n');
    assert(join_spec(sbv_segment(line), seq!['\n']) + seq!['\n'] =~= sbv_block(line));
}

proof fn lemma_sbv_segment_lines(line: LineView)
    requires
        line.timecode is Some,
        is_reimportable_text(line.text),
    ensures
        forall|k: int, i: int|
            0 <= k < sbv_segment(line).len() && 0 <= i < sbv_segment(line)[k].len()
                ==> #[trigger] sbv_segment(line)[k][i] != '\n',
        forall|k: int| 0 <= k < sbv_segment(line).len() ==> strip_cr(#[trigger] sbv_segment(line)[k]) == sbv_segment(line)[k],
{
    let p = split_char_spec(line.text, '\n');
    let seg = sbv_segment(line);
    let e: Seq<char> = seq![];
    lemma_sbv_range_text_shape(line);
    lemma_text_pieces(line.text);
    assert forall|k: int, i: int| 0 <= k < seg.len() && 0 <= i < seg[k].len() implies #[trigger] seg[k][i] != '\n' by {
        if 0 < k <= p.len() {
            assert(seg[k] == p[k - 1]);
        }
    }
    assert forall|k: int| 0 <= k < seg.len() implies strip_cr(#[trigger] seg[k]) == seg[k] by {
        if 0 < k <= p.len() {
            assert(seg[k] == p[k - 1]);
        } else if k > p.len() {
            assert(seg[k] == e);
        }
    }
}

proof fn lemma_sbv_file_lines(lines: Seq<LineView>, n: int)
    requires
        0 <= n <= lines.len(),
        forall|i: int| 0 <= i < n ==> (#[trigger] lines[i]).timecode is Some && is_reimportable_text(lines[i].text),
    ensures
        blocks_fold(sbv_file_lines(lines, n)) == (
            Seq::new(n as nat, |i: int| sbv_block_lines(lines[i])),
            Seq::<Seq<char>>::empty(),
        ),
        n > 0 ==> sbv_file_lines(lines, n).len() > 0,
        n > 0 ==> join_spec(sbv_file_lines(lines, n), seq!['\n']) + seq!['\n'] == blocks_text(lines, n, false),
        forall|k: int, i: int|
            0 <= k < sbv_file_lines(lines, n).len() && 0 <= i < sbv_file_lines(lines, n)[k].len()
                ==> #[trigger] sbv_file_lines(lines, n)[k][i] != '\n',
        forall|k: int|
            0 <= k < sbv_file_lines(lines, n).len() ==> strip_cr(#[trigger] sbv_file_lines(lines, n)[k])
                == sbv_file_lines(lines, n)[k],
    decreases n,
{
    if n == 0 {
        assert(Seq::new(0nat, |i: int| sbv_block_lines(lines[i])) =~= Seq::<Seq<Seq<char>>>::empty());
    } else {
        lemma_sbv_file_lines(lines, n - 1);
        let x = sbv_file_lines(lines, n - 1);
        let y = sbv_segment(lines[n - 1]);
        lemma_sbv_segment_fold(lines[n - 1]);
        lemma_sbv_segment_join(lines[n - 1]);
        lemma_sbv_segment_lines(lines[n - 1]);
        lemma_blocks_fold_append(x, y);
        assert(Seq::new((n - 1) as nat, |i: int| sbv_block_lines(lines[i])) + seq![sbv_block_lines(lines[n - 1])]
            =~= Seq::new(n as nat, |i: int| sbv_block_lines(lines[i])));
        if n == 1 {
            assert(x + y =~= y);
            assert(blocks_text(lines, 0, false) =~= Seq::<char>::empty());
            assert(blocks_text(lines, 1, false) =~= sbv_block(lines[0]));
        } else {
            lemma_join_append(x, y, seq!['\n']);
            assert(join_spec(x + y, seq!['\n']) + seq!['\n'] =~= (join_spec(x, seq!['\n']) + seq!['\n']) + (
            join_spec(y, seq!['\n']) + seq!['\n']));
        }
        let f = x + y;
        assert forall|k: int, i: int| 0 <= k < f.len() && 0 <= i < f[k].len() implies #[trigger] f[k][i] != '\n' by {
            if k < x.len() {
                assert(f[k] == x[k]);
            } else {
                assert(f[k] == y[k - x.len()]);
            }
        }
        assert forall|k: int| 0 <= k < f.len() implies strip_cr(#[trigger] f[k]) == f[k] by {
            if k < x.len() {
                assert(f[k] == x[k]);
            } else {
                assert(f[k] == y[k - x.len()]);
            }
        }
    }
}

proof fn lemma_no_bad_block(blocks: Seq<Seq<Seq<char>>>)
    requires
        forall|j: int| 0 <= j < blocks.len() ==> parse_range_spec((#[trigger] blocks[j])[0], seq![','], '.') is Some,
    ensures
        first_bad_sbv_block(blocks) is None,
    decreases blocks.len(),
{
    if blocks.len() > 0 {
        let b1 = blocks.drop_last();
        assert forall|j: int| 0 <= j < b1.len() implies parse_range_spec((#[trigger] b1[j])[0], seq![','], '.') is Some by {
            assert(b1[j] == blocks[j]);
        }
        lemma_no_bad_block(b1);
        assert(parse_range_spec(blocks[blocks.len() - 1][0], seq![','], '.') is Some);
    }
}

/// The block of a timed line reads as its text and the whole milliseconds of
/// its range.
proof fn lemma_sbv_block_read(line: LineView)
    requires
        line.timecode is Some,
    ensures
        block_text(sbv_block_lines(line).drop_first()) == line.text,
        parse_range_spec(sbv_block_lines(line)[0], seq![','], '.') == Some(
            (wrapped_millis(line.timecode->0.start@), wrapped_millis(line.timecode->0.end@)),
        ),
{
    lemma_sbv_range_text_parse(line);
    lemma_join_split(line.text, '\n');
    if line.text.len() == 0 {
        assert(sbv_block_lines(line).drop_first() =~= Seq::<Seq<char>>::empty());
    } else {
        assert(sbv_block_lines(line).drop_first() =~= split_char_spec(line.text, '\n'));
    }
}

/// Reading back an empty file gives no lines.
proof fn lemma_lines_of_empty()
    ensures
        lines_spec(Seq::<char>::empty()) == Seq::<Seq<char>>::empty(),
{
    let e: Seq<char> = seq![];
    assert(split_char_spec(e, '\n') =~= seq![e]);
    assert(lines_spec(e) =~= Seq::<Seq<char>>::empty());
}

/// An SBV file written by `export_sbv` from timed lines whose texts it can
/// carry is read back by `import_sbv` without error, as one subtitle per
/// line, with the same text and with each time range in the whole
/// milliseconds that the file holds (`wrapped_millis`; unchanged for ranges
/// of whole milliseconds, see `law_sbv_timecode_roundtrip`).
#[verifier::spinoff_prover]
pub proof fn law_sbv_export_import(lines: Seq<LineView>)
    requires
        forall|i: int| 0 <= i < lines.len() ==> (#[trigger] lines[i]).timecode is Some && is_reimportable_text(lines[i].text),
    ensures
        ({
            let blocks = blocks_spec(lines_spec(blocks_text(lines, lines.len() as int, false)));
            &&& first_bad_sbv_block(blocks) is None
            &&& blocks.len() == lines.len()
            &&& forall|j: int|
                0 <= j < lines.len() ==> block_text((#[trigger] blocks[j]).drop_first()) == lines[j].text
                    && parse_range_spec(blocks[j][0], seq![','], '.') == Some(
                    (
                        wrapped_millis(lines[j].timecode->0.start@),
                        wrapped_millis(lines[j].timecode->0.end@),
                    ),
                )
        }),
{
    let n = lines.len() as int;
    let blocks = blocks_spec(lines_spec(blocks_text(lines, n, false)));
    let expected = Seq::new(n as nat, |i: int| sbv_block_lines(lines[i]));
    lemma_sbv_file_lines(lines, n);
    if n == 0 {
        assert(blocks_text(lines, 0, false) =~= Seq::<char>::empty());
        lemma_lines_of_empty();
        assert(blocks =~= expected);
    } else {
        lemma_lines_of_terminated(sbv_file_lines(lines, n));
        assert(blocks == expected);
    }
    assert forall|j: int| 0 <= j < lines.len() implies block_text((#[trigger] blocks[j]).drop_first()) == lines[j].text
        && parse_range_spec(blocks[j][0], seq![','], '.') == Some(
        (wrapped_millis(lines[j].timecode->0.start@), wrapped_millis(lines[j].timecode->0.end@)),
    ) by {
        assert(blocks[j] == sbv_block_lines(lines[j]));
        lemma_sbv_block_read(lines[j]);
    }
    lemma_no_bad_block(blocks);
}

proof fn lemma_txt_segment(text: Seq<char>)
    requires
        text.len() > 0,
        is_reimportable_text(text),
    ensures
        blocks_fold(split_char_spec(text, '\n') + seq![seq![]]) == (
            seq![split_char_spec(text, '\n')],
            Seq::<Seq<char>>::empty(),
        ),
        join_spec(split_char_spec(text, '\n') + seq![seq![]], seq!['\n']) == text + seq!['\n'],
{
    let p = split_char_spec(text, '\n');
    let e: Seq<char> = seq![];
    lemma_split_char_nonempty(text, '\n');
    lemma_blocks_fold_run(p);
    assert forall|k: int| 0 <= k < seq![e].len() implies trim_spec(#[trigger] seq![e][k]).len() == 0 by {
        assert(seq![e][k] == e);
    }
    lemma_blocks_fold_blanks(p, seq![e]);
    assert(closed_blocks(blocks_fold(p)) =~= seq![p]);
    assert(p + seq![e] =~= p.push(e));
    lemma_join_push(p, e, seq!['\n']);
    lemma_join_split(text, '\n');
    assert(join_spec(p, seq!['\n']) + seq!['\n'] + e =~= text + seq!['\n']);
}

proof fn lemma_txt_file_lines(lines: Seq<LineView>, n: int)
    requires
        0 <= n <= lines.len(),
        forall|i: int| 0 <= i < n ==> (#[trigger] lines[i]).text.len() > 0 && is_reimportable_text(lines[i].text),
    ensures
        blocks_fold(txt_file_lines(lines, n)) == (
            Seq::new(n as nat, |i: int| split_char_spec(lines[i].text, '\n')),
            Seq::<Seq<char>>::empty(),
        ),
        n > 0 ==> txt_file_lines(lines, n).len() > 1,
        n > 0 ==> txt_file_lines(lines, n).last().len() == 0,
        n > 0 ==> join_spec(txt_file_lines(lines, n), seq!['\n']) == join_spec(
            texts_of(lines).take(n),
            seq!['\n', '\n'],
        ) + seq!['\n'],
        forall|k: int, i: int|
            0 <= k < txt_file_lines(lines, n).len() && 0 <= i < txt_file_lines(lines, n)[k].len()
                ==> #[trigger] txt_file_lines(lines, n)[k][i] != '\n',
        forall|k: int|
            0 <= k < txt_file_lines(lines, n).len() ==> strip_cr(#[trigger] txt_file_lines(lines, n)[k])
                == txt_file_lines(lines, n)[k],
    decreases n,
{
    if n == 0 {
        assert(Seq::new(0nat, |i: int| split_char_spec(lines[i].text, '\n')) =~= Seq::<Seq<Seq<char>>>::empty());
    } else {
        lemma_txt_file_lines(lines, n - 1);
        let t = lines[n - 1].text;
        let x = txt_file_lines(lines, n - 1);
        let p = split_char_spec(t, '\n');
        let e: Seq<char> = seq![];
        let y = p + seq![e];
        assert(txt_file_lines(lines, n) =~= x + y);
        lemma_txt_segment(t);
        lemma_text_pieces(t);
        lemma_blocks_fold_append(x, y);
        assert(Seq::new((n - 1) as nat, |i: int| split_char_spec(lines[i].text, '\n')) + seq![p]
            =~= Seq::new(n as nat, |i: int| split_char_spec(lines[i].text, '\n')));
        let ts = texts_of(lines);
        assert(ts.take(n).last() == t);
        if n == 1 {
            assert(x + y =~= y);
            assert(ts.take(1) =~= seq![t]);
        } else {
            lemma_join_append(x, y, seq!['\n']);
            assert(ts.take(n).drop_last() =~= ts.take(n - 1));
            assert(join_spec(x + y, seq!['\n']) =~= join_spec(ts.take(n), seq!['\n', '\n']) + seq!['\n']);
        }
        let f = x + y;
        assert forall|k: int, i: int| 0 <= k < f.len() && 0 <= i < f[k].len() implies #[trigger] f[k][i] != '\n' by {
            if k < x.len() {
                assert(f[k] == x[k]);
            } else if k < x.len() + p.len() {
                assert(f[k] == p[k - x.len()]);
            }
        }
        assert forall|k: int| 0 <= k < f.len() implies strip_cr(#[trigger] f[k]) == f[k] by {
            if k < x.len() {
                assert(f[k] == x[k]);
            } else if k < x.len() + p.len() {
                assert(f[k] == p[k - x.len()]);
            } else {
                assert(f[k] == e);
            }
        }
    }
}

/// A plain-text file written by `export_txt` from lines whose texts are
/// non-empty and can be carried is read back by `import_txt` as the same
/// texts, one subtitle per line, without time ranges (the format has none).
#[verifier::spinoff_prover]
pub proof fn law_txt_export_import(lines: Seq<LineView>)
    requires
        forall|i: int| 0 <= i < lines.len() ==> (#[trigger] lines[i]).text.len() > 0 && is_reimportable_text(lines[i].text),
    ensures
        import_txt_spec(lines_spec(txt_contents_spec(lines))) == lines.map_values(
            |l: LineView| LineView { text: l.text, timecode: None },
        ),
{
    let n = lines.len() as int;
    let expected = lines.map_values(|l: LineView| LineView { text: l.text, timecode: None });
    if n == 0 {
        lemma_lines_of_empty();
        assert(import_txt_spec(lines_spec(txt_contents_spec(lines))) =~= expected);
    } else {
        lemma_txt_file_lines(lines, n);
        let f = txt_file_lines(lines, n);
        let g = f.drop_last();
        let e: Seq<char> = seq![];
        assert(f =~= g.push(e));
        assert(texts_of(lines).take(n) =~= texts_of(lines));
        lemma_join_push(g, e, seq!['\n']);
        assert(txt_contents_spec(lines) =~= join_spec(g, seq!['\n']) + seq!['\n']);
        assert forall|k: int, i: int| 0 <= k < g.len() && 0 <= i < g[k].len() implies #[trigger] g[k][i] != '\n' by {
            assert(g[k] == f[k]);
        }
        assert forall|k: int| 0 <= k < g.len() implies strip_cr(#[trigger] g[k]) == g[k] by {
            assert(g[k] == f[k]);
        }
        lemma_lines_of_terminated(g);
        assert forall|k: int| 0 <= k < seq![e].len() implies trim_spec(#[trigger] seq![e][k]).len() == 0 by {
            assert(seq![e][k] == e);
        }
        lemma_blocks_fold_blanks(g, seq![e]);
        assert(g + seq![e] =~= f);
        let blocks = blocks_spec(g);
        assert(blocks == Seq::new(n as nat, |i: int| split_char_spec(lines[i].text, '\n')));
        assert forall|j: int| 0 <= j < n implies block_text(#[trigger] blocks[j]) == lines[j].text by {
            lemma_join_split(lines[j].text, '\n');
        }
        assert(import_txt_spec(g) =~= expected);
    }
}

/// Whether a duration is a whole number of milliseconds below 2^64 ms, the
/// durations that a timecode text carries exactly.
pub open spec fn is_whole_millis(d: nat) -> bool {
    d % 1_000_000 == 0 && d / 1_000_000 <= u64_max()
}

/// An SBV block is read as the timed line it was written from, when the
/// range is in whole milliseconds.
proof fn lemma_sbv_block_reads_as(block: Seq<Seq<char>>, line: LineView, other: LineView)
    requires
        line.timecode is Some,
        is_whole_millis(line.timecode->0.start@),
        is_whole_millis(line.timecode->0.end@),
        block_text(block.drop_first()) == line.text,
        parse_range_spec(block[0], seq![','], '.') == Some(
            (wrapped_millis(line.timecode->0.start@), wrapped_millis(line.timecode->0.end@)),
        ),
    ensures
        is_sbv_line(block, other) <==> other == line,
{
    broadcast use crate::duration::Duration::lemma_view_injective;
    let tc = line.timecode->0;
    law_sbv_timecode_roundtrip(tc.start@);
    law_sbv_timecode_roundtrip(tc.end@);
    if is_sbv_line(block, other) {
        let oc = other.timecode->0;
        assert(oc.start@ == tc.start@);
        assert(oc.end@ == tc.end@);
        assert(oc.start == tc.start);
        assert(oc.end == tc.end);
        assert(oc == tc);
    }
}

/// What `export_sbv` writes for timed lines whose texts the format can carry
/// and whose ranges are in whole milliseconds is read back by `import_sbv`
/// (the file split into lines as `str::lines` splits it) as exactly those
/// lines: the export reports no error, no block is refused, and block `j`
/// is read as line `j` and as nothing else.
#[verifier::spinoff_prover]
pub proof fn law_sbv_file_reads_back(lines: Seq<LineView>, written: ExportText)
    requires
        is_timed_export(written, lines, false),
        forall|i: int|
            0 <= i < lines.len() ==> (#[trigger] lines[i]).timecode is Some && is_reimportable_text(lines[i].text)
                && is_whole_millis(lines[i].timecode->0.start@) && is_whole_millis(lines[i].timecode->0.end@),
    ensures
        written.error is None,
        ({
            let blocks = blocks_spec(lines_spec(written.contents@));
            &&& first_bad_sbv_block(blocks) is None
            &&& blocks.len() == lines.len()
            &&& forall|j: int, l: LineView|
                0 <= j < lines.len() ==> (#[trigger] is_sbv_line(blocks[j], l) <==> l == lines[j])
        }),
{
    assert(!exists|i: int| 0 <= i < lines.len() && #[trigger] lines[i].timecode is None);
    assert(written.contents@ == blocks_text(lines, lines.len() as int, false));
    law_sbv_export_import(lines);
    let blocks = blocks_spec(lines_spec(written.contents@));
    assert forall|j: int, l: LineView| 0 <= j < lines.len() implies (#[trigger] is_sbv_line(blocks[j], l) <==> l
        == lines[j]) by {
        lemma_sbv_block_reads_as(blocks[j], lines[j], l);
    }
}

/// The time range line of the SRT block of a timed line.
pub open spec fn srt_range_text(line: LineView) -> Seq<char> {
    srt_timecode_text(line.timecode->0.start@) + " --> "@ + srt_timecode_text(line.timecode->0.end@)
}

proof fn lemma_srt_range_text_split(line: LineView)
    requires
        line.timecode is Some,
    ensures
        ({
            let x = srt_timecode_text(line.timecode->0.start@);
            let y = srt_timecode_text(line.timecode->0.end@);
            split_once_spec(srt_range_text(line), seq!['-', '-', '>']) == Some((x + seq![' '], seq![' '] + y))
                && trim_spec(x + seq![' ']) == x && trim_spec(seq![' '] + y) == y
        }),
{
    let x = srt_timecode_text(line.timecode->0.start@);
    let y = srt_timecode_text(line.timecode->0.end@);
    lemma_clock_text_shape(wrapped_millis(line.timecode->0.start@), 2, ',');
    lemma_clock_text_shape(wrapped_millis(line.timecode->0.end@), 2, ',');
    lemma_digit_not_space(x[0]);
    lemma_digit_not_space(x.last());
    lemma_digit_not_space(y[0]);
    lemma_digit_not_space(y.last());
    reveal_strlit(" --> ");
    let arrow: Seq<char> = seq!['-', '-', '>'];
    let a = x + seq![' '];
    let b = seq![' '] + y;
    assert(srt_range_text(line) =~= a + arrow + b);
    assert forall|i: int| 0 <= i < a.len() implies a[i] != arrow[0] by {
        if i < x.len() {
            assert(a[i] == x[i]);
            assert('0' <= x[i] && x[i] <= '9' || x[i] == ':' || x[i] == ',');
        }
    }
    lemma_split_once_at_pattern(a, arrow, b);
    lemma_trim_padded(x);
    lemma_trim_padded(y);
}

/// The time range line that `export_srt` writes in the block of a timed line
/// (its second line) reads back with `parse_srt_time_range` as the whole
/// milliseconds of the range (`wrapped_millis`; unchanged for ranges of whole
/// milliseconds, see `law_srt_timecode_roundtrip`).
#[verifier::spinoff_prover]
pub proof fn law_srt_range_line_reads_back(number: nat, line: LineView)
    requires
        line.timecode is Some,
    ensures
        srt_block(number, line) == decimal_spec(number) + seq!['\n'] + srt_range_text(line) + seq!['\n']
            + line.text + seq!['\n', '\n'],
        parse_range_spec(srt_range_text(line), seq!['-', '-', '>'], ',') == Some(
            (wrapped_millis(line.timecode->0.start@), wrapped_millis(line.timecode->0.end@)),
        ),
{
    assert(srt_block(number, line) =~= decimal_spec(number) + seq!['\n'] + srt_range_text(line) + seq!['\n']
        + line.text + seq!['\n', '\n']);
    lemma_srt_range_text_split(line);
    law_srt_timecode_roundtrip(line.timecode->0.start@);
    law_srt_timecode_roundtrip(line.timecode->0.end@);
}

} // verus!
