//! The text side of translation: picking the word under the cursor, cutting
//! and replacing character ranges, building the context sent with a line,
//! and the glossary's TSV form and language-pair matching.

use vstd::prelude::*;
use crate::deepl::{GlossaryMeta, tsv_entries_of, tsv_entry_spec};
use crate::project::{LineView, SubtitleLine, lines_view};
use crate::text::{
    append_chars, capped_index, char_is_alphanumeric, chars_of, collapse_whitespace,
    collapse_whitespace_spec, eq_ignore_ascii_case, eq_ignore_ascii_case_spec, is_alphanumeric_spec, join_chars, join_spec, split_once,
    split_once_spec, str_to_uppercase, string_from_chars, subrange_vec, to_uppercase_spec,
    trim_chars, trim_spec, lines_spec, strip_cr, is_whitespace_spec, lemma_trim_ends,
    lemma_trim_identity, lemma_lines_of_join, lemma_split_once_at_char, words_spec,
    lemma_join_append, lemma_join_nonempty, lemma_words_nonempty,
};

verus! {

// ---------------------------------------------------------------------
// Words and character ranges
// ---------------------------------------------------------------------

/// Whether `c` belongs to a word: alphanumeric or `'_'`.
pub open spec fn is_word_char_spec(c: char) -> bool {
    is_alphanumeric_spec(c) || c == '_'
}

/// Whether `c` belongs to a word.
pub fn is_word_char(ch: char) -> (r: bool)
    ensures
        r == is_word_char_spec(ch),
{
    char_is_alphanumeric(ch) || ch == '_'
}

/// The character the word lookup starts from: the one at the cursor (or the
/// last one, when the cursor is past the end), or the one before it when the
/// cursor is just after a word; `None` when neither is a word character.
pub open spec fn word_anchor(t: Seq<char>, k: int) -> Option<int> {
    if t.len() == 0 {
        None
    } else {
        let i = if k < t.len() - 1 {
            k
        } else {
            t.len() - 1
        };
        if is_word_char_spec(t[i]) {
            Some(i)
        } else if i > 0 && is_word_char_spec(t[i - 1]) {
            Some(i - 1)
        } else {
            None
        }
    }
}

/// Whether `start..end` is the maximal run of word characters of `t` that
/// holds index `a`.
pub open spec fn is_word_span(t: Seq<char>, a: int, start: int, end: int) -> bool {
    &&& 0 <= start <= a < end <= t.len()
    &&& forall|j: int| start <= j < end ==> is_word_char_spec(#[trigger] t[j])
    &&& start == 0 || !is_word_char_spec(t[start - 1])
    &&& end == t.len() || !is_word_char_spec(t[end])
}

/// The character range of the word at (or just before) the cursor.
pub fn word_span_at_char(text: &str, char_index: usize) -> (r: Option<(usize, usize)>)
    ensures
        match word_anchor(text@, char_index as int) {
            None => r is None,
            Some(a) => match r {
                Some((s, e)) => is_word_span(text@, a, s as int, e as int),
                None => false,
            },
        },
{
    let chars = chars_of(text);
    if chars.len() == 0 {
        return None;
    }
    let mut index = if char_index < chars.len() - 1 {
        char_index
    } else {
        chars.len() - 1
    };
    if !is_word_char(chars[index]) {
        if index > 0 && is_word_char(chars[index - 1]) {
            index = index - 1;
        } else {
            return None;
        }
    }
    let mut start = index;
    while start > 0 && is_word_char(chars[start - 1])
        invariant
            start <= index < chars.len(),
            is_word_char_spec(chars@[index as int]),
            forall|j: int| start <= j <= index ==> is_word_char_spec(#[trigger] chars@[j]),
        decreases start,
    {
        start = start - 1;
    }
    let mut end = index + 1;
    while end < chars.len() && is_word_char(chars[end])
        invariant
            index < end <= chars.len(),
            forall|j: int| start <= j < end ==> is_word_char_spec(#[trigger] chars@[j]),
        decreases chars.len() - end,
    {
        end = end + 1;
    }
    Some((start, end))
}

/// The characters of `t` from `start` to `end` (each capped at the length),
/// or `None` when the range is empty or reversed.
pub open spec fn substring_spec(t: Seq<char>, start: int, end: int) -> Option<Seq<char>> {
    if start >= end {
        None
    } else {
        Some(t.subrange(capped_index(t, start), capped_index(t, end)))
    }
}

/// The text of a character range.
pub fn substring_by_char_range(text: &str, start: usize, end: usize) -> (r: Option<String>)
    ensures
        match substring_spec(text@, start as int, end as int) {
            None => r is None,
            Some(s) => r is Some && r->0@ == s,
        },
{
    if start >= end {
        return None;
    }
    let chars = chars_of(text);
    let lo = if start < chars.len() {
        start
    } else {
        chars.len()
    };
    let hi = if end < chars.len() {
        end
    } else {
        chars.len()
    };
    Some(string_from_chars(&subrange_vec(&chars, lo, hi)))
}

/// `t` with the characters from `start` to `end` (each capped at the length)
/// replaced by `replacement`, or `None` when the capped range is reversed.
pub open spec fn replace_spec(t: Seq<char>, start: int, end: int, replacement: Seq<char>) -> Option<Seq<char>> {
    let s = capped_index(t, start);
    let e = capped_index(t, end);
    if s > e {
        None
    } else {
        Some(t.take(s) + replacement + t.skip(e))
    }
}

/// Replaces a character range of a text.
pub fn replace_char_range(text: &str, start: usize, end: usize, replacement: &str) -> (r: Option<String>)
    ensures
        match replace_spec(text@, start as int, end as int, replacement@) {
            None => r is None,
            Some(s) => r is Some && r->0@ == s,
        },
{
    let chars = chars_of(text);
    let lo = if start < chars.len() {
        start
    } else {
        chars.len()
    };
    let hi = if end < chars.len() {
        end
    } else {
        chars.len()
    };
    if lo > hi {
        return None;
    }
    let mut out = subrange_vec(&chars, 0, lo);
    append_chars(&mut out, &chars_of(replacement));
    append_chars(&mut out, &subrange_vec(&chars, hi, chars.len()));
    proof {
        assert(chars@.subrange(0, lo as int) =~= chars@.take(lo as int));
        assert(chars@.subrange(hi as int, chars@.len() as int) =~= chars@.skip(hi as int));
    }
    Some(string_from_chars(&out))
}

/// Putting back the text that a range holds changes nothing.
pub proof fn law_replace_with_own_substring(t: Seq<char>, start: int, end: int)
    requires
        0 <= start < end,
    ensures
        replace_spec(t, start, end, substring_spec(t, start, end)->0) == Some(t),
{
    let s = capped_index(t, start);
    let e = capped_index(t, end);
    assert(t.take(s) + t.subrange(s, e) + t.skip(e) =~= t);
}

// ---------------------------------------------------------------------
// Translation context
// ---------------------------------------------------------------------

/// The whitespace-collapsed, non-empty texts of lines `lo..hi` other than
/// line `index`, in order.
pub open spec fn context_parts(texts: Seq<LineView>, index: int, lo: int, hi: int) -> Seq<Seq<char>>
    decreases hi - lo,
{
    if hi <= lo {
        seq![]
    } else {
        let p = context_parts(texts, index, lo, hi - 1);
        let w = collapse_whitespace_spec(texts[hi - 1].text);
        if hi - 1 == index || w.len() == 0 {
            p
        } else {
            p.push(w)
        }
    }
}

/// The context sent with line `index`: the texts of up to `radius` lines on
/// each side, each with its whitespace collapsed, joined by spaces; `None`
/// when there is none.
pub open spec fn translation_context_spec(lines: Seq<LineView>, index: int, radius: int) -> Option<Seq<char>> {
    if lines.len() == 0 || index >= lines.len() {
        None
    } else {
        let lo = if index >= radius {
            index - radius
        } else {
            0
        };
        let hi = if index + radius + 1 < lines.len() {
            index + radius + 1
        } else {
            lines.len() as int
        };
        let parts = context_parts(lines, index, lo, hi);
        if parts.len() == 0 {
            None
        } else {
            Some(join_spec(parts, seq![' ']))
        }
    }
}

/// The words, in order, of lines `lo..hi` other than line `skip`.
pub open spec fn window_words(lines: Seq<LineView>, skip: int, lo: int, hi: int) -> Seq<Seq<char>>
    decreases hi - lo,
{
    if hi <= lo {
        seq![]
    } else {
        window_words(lines, skip, lo, hi - 1) + if hi - 1 == skip {
            Seq::<Seq<char>>::empty()
        } else {
            words_spec(lines[hi - 1].text)
        }
    }
}

proof fn lemma_context_parts_words(lines: Seq<LineView>, index: int, lo: int, hi: int)
    requires
        0 <= lo,
        hi <= lines.len(),
    ensures
        (context_parts(lines, index, lo, hi).len() == 0) == (window_words(lines, index, lo, hi).len() == 0),
        join_spec(context_parts(lines, index, lo, hi), seq![' ']) == join_spec(
            window_words(lines, index, lo, hi),
            seq![' '],
        ),
        forall|k: int|
            0 <= k < window_words(lines, index, lo, hi).len() ==> (#[trigger] window_words(
                lines,
                index,
                lo,
                hi,
            )[k]).len() > 0,
    decreases hi - lo,
{
    if hi > lo {
        lemma_context_parts_words(lines, index, lo, hi - 1);
        let p = context_parts(lines, index, lo, hi - 1);
        let w = window_words(lines, index, lo, hi - 1);
        let t = lines[hi - 1].text;
        let tw = words_spec(t);
        lemma_words_nonempty(t);
        lemma_join_nonempty(tw, seq![' ']);
        let extra: Seq<Seq<char>> = if hi - 1 == index {
            Seq::<Seq<char>>::empty()
        } else {
            tw
        };
        let w2 = window_words(lines, index, lo, hi);
        assert(w2 == w + extra);
        assert forall|k: int| 0 <= k < w2.len() implies (#[trigger] w2[k]).len() > 0 by {
            if k < w.len() {
                assert(w2[k] == w[k]);
            } else {
                assert(w2[k] == tw[k - w.len()]);
            }
        }
        if hi - 1 == index || collapse_whitespace_spec(t).len() == 0 {
            assert(extra.len() == 0);
            assert(w2 =~= w);
        } else {
            assert(tw.len() > 0);
            assert(w2 =~= w + tw);
            if p.len() == 0 {
                assert(w + tw =~= tw);
                assert(p.push(collapse_whitespace_spec(t)) =~= seq![collapse_whitespace_spec(t)]);
            } else {
                lemma_join_append(w, tw, seq![' ']);
                assert(p.push(collapse_whitespace_spec(t)).drop_last() =~= p);
            }
        }
    }
}

/// The context sent with line `index` is the words of the lines at most
/// `radius` before and after it (not the line itself), in order, joined by
/// single spaces; `None` when those lines hold no words.
pub proof fn law_context_is_window_words(lines: Seq<LineView>, index: int, radius: int)
    requires
        0 <= index < lines.len(),
        radius >= 0,
    ensures
        ({
            let lo = if index - radius >= 0 { index - radius } else { 0 };
            let hi = if index + radius + 1 <= lines.len() { index + radius + 1 } else { lines.len() as int };
            let words = window_words(lines, index, lo, hi);
            translation_context_spec(lines, index, radius) == if words.len() == 0 {
                None
            } else {
                Some(join_spec(words, seq![' ']))
            }
        }),
{
    let lo = if index - radius >= 0 { index - radius } else { 0 };
    let hi = if index + radius + 1 <= lines.len() { index + radius + 1 } else { lines.len() as int };
    lemma_context_parts_words(lines, index, lo, hi);
}

/// Builds the context sent to the translator with line `line_index`.
pub fn build_translation_context_from_lines(lines: &Vec<SubtitleLine>, line_index: usize, radius: usize) -> (r: Option<String>)
    ensures
        match translation_context_spec(lines_view(lines@), line_index as int, radius as int) {
            None => r is None,
            Some(s) => r is Some && r->0@ == s,
        },
{
    if lines.len() == 0 || line_index >= lines.len() {
        return None;
    }
    let ghost views = lines_view(lines@);
    let start = if line_index >= radius {
        line_index - radius
    } else {
        0
    };
    let end = if radius < lines.len() - line_index - 1 {
        line_index + radius + 1
    } else {
        lines.len()
    };
    let mut parts: Vec<Vec<char>> = Vec::new();
    let mut idx = start;
    while idx < end
        invariant
            start <= idx <= end <= lines.len(),
            views == lines_view(lines@),
            parts@.map_values(|p: Vec<char>| p@) == context_parts(views, line_index as int, start as int, idx as int),
        decreases end - idx,
    {
        let ghost before = parts@.map_values(|p: Vec<char>| p@);
        if idx != line_index {
            let text = collapse_whitespace(&chars_of(lines[idx].text.as_str()));
            if text.len() > 0 {
                parts.push(text);
                proof {
                    assert(parts@.map_values(|p: Vec<char>| p@) =~= before.push(text@));
                }
            }
        }
        idx = idx + 1;
    }
    if parts.len() == 0 {
        return None;
    }
    let sep = vec![' '];
    proof {
        assert(sep@ =~= seq![' ']);
    }
    Some(string_from_chars(&join_chars(&parts, &sep)))
}

// ---------------------------------------------------------------------
// Glossary
// ---------------------------------------------------------------------

/// One glossary pair, as the user typed it.
#[derive(Clone, Debug)]
pub struct GlossaryEntry {
    pub source: String,
    pub target: String,
}

/// `c`, with tabs, newlines and carriage returns turned into spaces.
pub open spec fn tsv_safe_char(c: char) -> char {
    if c == '\t' || c == '\n' || c == '\r' {
        ' '
    } else {
        c
    }
}

/// A glossary phrase as it goes into TSV: trimmed, with tabs, newlines and
/// carriage returns turned into spaces.
pub open spec fn normalize_glossary_spec(s: Seq<char>) -> Seq<char> {
    trim_spec(s).map_values(|c: char| tsv_safe_char(c))
}

fn normalize_glossary_chars(text: &String) -> (r: Vec<char>)
    ensures
        r@ == normalize_glossary_spec(text@),
{
    let t = trim_chars(&chars_of(text.as_str()));
    let mut out: Vec<char> = Vec::new();
    let mut i: usize = 0;
    while i < t.len()
        invariant
            i <= t.len(),
            out@ == t@.take(i as int).map_values(|c: char| tsv_safe_char(c)),
        decreases t.len() - i,
    {
        let c = t[i];
        let d = if c == '\t' || c == '\n' || c == '\r' {
            ' '
        } else {
            c
        };
        out.push(d);
        i = i + 1;
        proof {
            assert(out@ =~= t@.take(i as int).map_values(|c: char| tsv_safe_char(c)));
        }
    }
    proof {
        assert(t@.take(i as int) =~= t@);
    }
    out
}

/// Normalizes a glossary phrase for TSV.
pub fn normalize_glossary_text(text: &str) -> (r: String)
    ensures
        r@ == normalize_glossary_spec(text@),
{
    string_from_chars(&normalize_glossary_chars(&string_from_chars(&chars_of(text))))
}

/// The TSV lines `source<TAB>target` of the entries whose normalized phrases
/// are both non-empty, in order.
pub open spec fn tsv_lines(entries: Seq<(Seq<char>, Seq<char>)>) -> Seq<Seq<char>>
    decreases entries.len(),
{
    if entries.len() == 0 {
        seq![]
    } else {
        let p = tsv_lines(entries.drop_last());
        let s = normalize_glossary_spec(entries.last().0);
        let t = normalize_glossary_spec(entries.last().1);
        if s.len() == 0 || t.len() == 0 {
            p
        } else {
            p.push(s + seq!['\t'] + t)
        }
    }
}

/// The views of glossary entries as pairs of texts.
pub open spec fn entries_view(entries: Seq<GlossaryEntry>) -> Seq<(Seq<char>, Seq<char>)> {
    entries.map_values(|e: GlossaryEntry| (e.source@, e.target@))
}

/// The message given when no glossary entry has two non-empty phrases.
pub open spec fn empty_glossary_message() -> Seq<char> {
    "Добавьте хотя бы одну непустую запись в глоссарий"@
}

/// The glossary as DeepL's TSV: one `source<TAB>target` line per usable
/// entry, joined by newlines; an error when no entry is usable.
pub fn glossary_entries_to_tsv(entries: &Vec<GlossaryEntry>) -> (r: Result<String, String>)
    ensures
        tsv_lines(entries_view(entries@)).len() == 0 ==> r is Err && r->Err_0@ == empty_glossary_message(),
        tsv_lines(entries_view(entries@)).len() > 0 ==> r is Ok && r->Ok_0@ == join_spec(
            tsv_lines(entries_view(entries@)),
            seq!['\n'],
        ),
{
    let ghost ev = entries_view(entries@);
    let mut pairs: Vec<Vec<char>> = Vec::new();
    let mut i: usize = 0;
    while i < entries.len()
        invariant
            i <= entries.len(),
            ev == entries_view(entries@),
            pairs@.map_values(|p: Vec<char>| p@) == tsv_lines(ev.take(i as int)),
        decreases entries.len() - i,
    {
        proof {
            assert(ev.take(i + 1).drop_last() =~= ev.take(i as int));
            assert(ev.take(i + 1).last() == ev[i as int]);
            assert(ev[i as int] == (entries@[i as int].source@, entries@[i as int].target@));
        }
        let ghost before = pairs@.map_values(|p: Vec<char>| p@);
        let source = normalize_glossary_chars(&entries[i].source);
        let target = normalize_glossary_chars(&entries[i].target);
        if source.len() > 0 && target.len() > 0 {
            let mut line = source;
            line.push('\t');
            append_chars(&mut line, &target);
            proof {
                assert(line@ =~= source@ + seq!['\t'] + target@);
            }
            pairs.push(line);
            proof {
                assert(pairs@.map_values(|p: Vec<char>| p@) =~= before.push(line@));
                assert(tsv_lines(ev.take(i + 1)) == before.push(line@));
            }
        } else {
            proof {
                assert(tsv_lines(ev.take(i + 1)) == before);
            }
        }
        i = i + 1;
    }
    proof {
        assert(ev.take(i as int) =~= ev);
    }
    if pairs.len() == 0 {
        return Err(string_from_chars(&chars_of("Добавьте хотя бы одну непустую запись в глоссарий")));
    }
    let sep = vec!['\n'];
    proof {
        assert(sep@ =~= seq!['\n']);
    }
    Ok(string_from_chars(&join_chars(&pairs, &sep)))
}

/// The base language of an upper-cased code: the part before the first `'-'`.
pub open spec fn language_base(s: Seq<char>) -> Seq<char> {
    match split_once_spec(s, seq!['-']) {
        Some((a, _)) => a,
        None => s,
    }
}

/// Two language codes match when, trimmed and upper-cased, they are equal or
/// have the same base language (`EN-GB` matches `en`).
pub open spec fn language_matches_spec(a: Seq<char>, b: Seq<char>) -> bool {
    let au = to_uppercase_spec(trim_spec(a));
    let bu = to_uppercase_spec(trim_spec(b));
    au == bu || language_base(au) == language_base(bu)
}

fn upper_trimmed(s: &str) -> (r: Vec<char>)
    ensures
        r@ == to_uppercase_spec(trim_spec(s@)),
{
    let t = string_from_chars(&trim_chars(&chars_of(s)));
    chars_of(str_to_uppercase(t.as_str()).as_str())
}

fn language_base_exec(s: &Vec<char>) -> (r: Vec<char>)
    ensures
        r@ == language_base(s@),
{
    let dash = vec!['-'];
    proof {
        assert(dash@ =~= seq!['-']);
    }
    match split_once(s, &dash) {
        Some((a, _)) => a,
        None => subrange_vec(s, 0, s.len()),
    }
}

/// Whether two language codes name the same language.
pub fn language_matches(a: &str, b: &str) -> (r: bool)
    ensures
        r == language_matches_spec(a@, b@),
{
    let a_up = upper_trimmed(a);
    let b_up = upper_trimmed(b);
    if crate::text::chars_eq(&a_up, &b_up) {
        return true;
    }
    crate::text::chars_eq(&language_base_exec(&a_up), &language_base_exec(&b_up))
}

/// Language matching is reflexive and symmetric.
pub proof fn law_language_matches_symmetric(a: Seq<char>, b: Seq<char>)
    ensures
        language_matches_spec(a, a),
        language_matches_spec(a, b) == language_matches_spec(b, a),
{
}


// ---------------------------------------------------------------------
// Glossaries stored at DeepL
// ---------------------------------------------------------------------

/// Whether one of a glossary's dictionaries is for this language pair.
pub open spec fn glossary_has_pair_spec(meta: GlossaryMeta, source_lang: Seq<char>, target_lang: Seq<char>) -> bool {
    exists|k: int|
        0 <= k < meta.dictionaries@.len() && #[trigger] language_matches_spec(
            meta.dictionaries@[k].source_lang@,
            source_lang,
        ) && language_matches_spec(meta.dictionaries@[k].target_lang@, target_lang)
}

/// A glossary has a language pair only in its own direction: it has the
/// pair `source -> target` exactly when one of its dictionaries translates
/// from a language matching `source` into one matching `target`; a glossary
/// none of whose dictionaries translates into `target` never has the pair,
/// whatever it translates from `target` into `source`.
pub proof fn law_glossary_pair_is_directed(meta: GlossaryMeta, source_lang: Seq<char>, target_lang: Seq<char>)
    ensures
        glossary_has_pair_spec(meta, source_lang, target_lang) <==> exists|k: int|
            0 <= k < meta.dictionaries@.len() && #[trigger] language_matches_spec(
                meta.dictionaries@[k].source_lang@,
                source_lang,
            ) && language_matches_spec(meta.dictionaries@[k].target_lang@, target_lang),
        (forall|k: int|
            0 <= k < meta.dictionaries@.len() ==> !#[trigger] language_matches_spec(
                meta.dictionaries@[k].target_lang@,
                target_lang,
            )) ==> !glossary_has_pair_spec(meta, source_lang, target_lang),
{
    if glossary_has_pair_spec(meta, source_lang, target_lang) {
        let k = choose|k: int|
            0 <= k < meta.dictionaries@.len() && #[trigger] language_matches_spec(
                meta.dictionaries@[k].source_lang@,
                source_lang,
            ) && language_matches_spec(meta.dictionaries@[k].target_lang@, target_lang);
        assert(language_matches_spec(meta.dictionaries@[k].target_lang@, target_lang));
    }
}

/// Whether a glossary has a dictionary for the language pair.
pub fn glossary_has_pair(meta: &GlossaryMeta, source_lang: &str, target_lang: &str) -> (r: bool)
    ensures
        r == glossary_has_pair_spec(*meta, source_lang@, target_lang@),
{
    let mut k: usize = 0;
    while k < meta.dictionaries.len()
        invariant
            k <= meta.dictionaries@.len(),
            forall|j: int|
                0 <= j < k ==> !(#[trigger] language_matches_spec(
                    meta.dictionaries@[j].source_lang@,
                    source_lang@,
                ) && language_matches_spec(meta.dictionaries@[j].target_lang@, target_lang@)),
        decreases meta.dictionaries.len() - k,
    {
        let d = &meta.dictionaries[k];
        if language_matches(d.source_lang.as_str(), source_lang) && language_matches(
            d.target_lang.as_str(),
            target_lang,
        ) {
            return true;
        }
        k = k + 1;
    }
    false
}

/// Whether glossary `k` has the wanted name (ignoring ASCII case) and pair.
pub open spec fn named_pair_match(gs: Seq<GlossaryMeta>, k: int, name: Seq<char>, s: Seq<char>, t: Seq<char>) -> bool {
    eq_ignore_ascii_case_spec(gs[k].name@, name) && glossary_has_pair_spec(gs[k], s, t)
}

/// The glossary to load: the first with the wanted name and language pair,
/// else the first with the pair.
pub fn find_glossary_id(glossaries: &Vec<GlossaryMeta>, name: &str, source_lang: &str, target_lang: &str) -> (r: Option<String>)
    ensures
        match r {
            Some(id) => exists|k: int|
                #![trigger glossaries@[k]]
                0 <= k < glossaries@.len() && id@ == glossaries@[k].glossary_id@ && ((named_pair_match(
                    glossaries@,
                    k,
                    name@,
                    source_lang@,
                    target_lang@,
                ) && forall|j: int|
                    0 <= j < k ==> !named_pair_match(glossaries@, j, name@, source_lang@, target_lang@))
                    || ((forall|j: int|
                    0 <= j < glossaries@.len() ==> !named_pair_match(
                        glossaries@,
                        j,
                        name@,
                        source_lang@,
                        target_lang@,
                    )) && glossary_has_pair_spec(glossaries@[k], source_lang@, target_lang@)
                    && forall|j: int|
                    0 <= j < k ==> !glossary_has_pair_spec(glossaries@[j], source_lang@, target_lang@))),
            None => forall|j: int|
                0 <= j < glossaries@.len() ==> !glossary_has_pair_spec(
                    glossaries@[j],
                    source_lang@,
                    target_lang@,
                ),
        },
{
    let name_chars = chars_of(name);
    let mut k: usize = 0;
    while k < glossaries.len()
        invariant
            k <= glossaries@.len(),
            name_chars@ == name@,
            forall|j: int|
                0 <= j < k ==> !named_pair_match(glossaries@, j, name@, source_lang@, target_lang@),
        decreases glossaries.len() - k,
    {
        if eq_ignore_ascii_case(&chars_of(glossaries[k].name.as_str()), &name_chars)
            && glossary_has_pair(&glossaries[k], source_lang, target_lang) {
            let id = glossaries[k].glossary_id.clone();
            proof {
                assert(named_pair_match(glossaries@, k as int, name@, source_lang@, target_lang@));
                assert(id@ == glossaries@[k as int].glossary_id@);
            }
            return Some(id);
        }
        k = k + 1;
    }
    let mut k: usize = 0;
    while k < glossaries.len()
        invariant
            k <= glossaries@.len(),
            forall|j: int|
                0 <= j < glossaries@.len() ==> !named_pair_match(
                    glossaries@,
                    j,
                    name@,
                    source_lang@,
                    target_lang@,
                ),
            forall|j: int| 0 <= j < k ==> !glossary_has_pair_spec(glossaries@[j], source_lang@, target_lang@),
        decreases glossaries.len() - k,
    {
        if glossary_has_pair(&glossaries[k], source_lang, target_lang) {
            let id = glossaries[k].glossary_id.clone();
            proof {
                assert(glossary_has_pair_spec(glossaries@[k as int], source_lang@, target_lang@));
                assert(id@ == glossaries@[k as int].glossary_id@);
            }
            return Some(id);
        }
        k = k + 1;
    }
    None
}

/// The message given when DeepL has no glossary for the language pair.
pub open spec fn glossary_not_found_spec(source_lang: Seq<char>, target_lang: Seq<char>) -> Seq<char> {
    "Не найден глоссарий в DeepL для пары "@ + source_lang + "→"@ + target_lang
        + ". Укажите Glossary ID или создайте/выгрузите глоссарий."@
}

/// The message given when DeepL has no glossary for the language pair.
pub fn glossary_not_found_message(source_lang: &str, target_lang: &str) -> (r: String)
    ensures
        r@ == glossary_not_found_spec(source_lang@, target_lang@),
{
    let mut out = chars_of("Не найден глоссарий в DeepL для пары ");
    append_chars(&mut out, &chars_of(source_lang));
    append_chars(&mut out, &chars_of("→"));
    append_chars(&mut out, &chars_of(target_lang));
    append_chars(&mut out, &chars_of(". Укажите Glossary ID или создайте/выгрузите глоссарий."));
    string_from_chars(&out)
}

/// Glossary entries from the pairs DeepL returned.
pub fn entries_from_pairs(pairs: Vec<(String, String)>) -> (r: Vec<GlossaryEntry>)
    ensures
        entries_view(r@) == pairs@.map_values(|p: (String, String)| (p.0@, p.1@)),
{
    let mut out: Vec<GlossaryEntry> = Vec::new();
    let mut i: usize = 0;
    while i < pairs.len()
        invariant
            i <= pairs.len(),
            out@.len() == i,
            forall|j: int|
                0 <= j < i ==> (#[trigger] out@[j]).source@ == pairs@[j].0@ && out@[j].target@
                    == pairs@[j].1@,
        decreases pairs.len() - i,
    {
        let (a, b) = (pairs[i].0.clone(), pairs[i].1.clone());
        out.push(GlossaryEntry { source: a, target: b });
        i = i + 1;
    }
    proof {
        assert(entries_view(out@) =~= pairs@.map_values(|p: (String, String)| (p.0@, p.1@)));
    }
    out
}


// ---------------------------------------------------------------------
// The glossary's TSV form reads back
// ---------------------------------------------------------------------

/// The glossary pairs that the TSV form keeps: both phrases normalized, and
/// only entries where both are non-empty, in order.
pub open spec fn glossary_pairs(entries: Seq<(Seq<char>, Seq<char>)>) -> Seq<(Seq<char>, Seq<char>)>
    decreases entries.len(),
{
    if entries.len() == 0 {
        seq![]
    } else {
        let p = glossary_pairs(entries.drop_last());
        let s = normalize_glossary_spec(entries.last().0);
        let t = normalize_glossary_spec(entries.last().1);
        if s.len() == 0 || t.len() == 0 {
            p
        } else {
            p.push((s, t))
        }
    }
}

proof fn lemma_normalized_shape(x: Seq<char>)
    ensures
        forall|i: int|
            0 <= i < normalize_glossary_spec(x).len() ==> #[trigger] normalize_glossary_spec(x)[i] != '\t'
                && normalize_glossary_spec(x)[i] != '\n' && normalize_glossary_spec(x)[i] != '\r',
        normalize_glossary_spec(x).len() > 0 ==> !is_whitespace_spec(normalize_glossary_spec(x)[0])
            && !is_whitespace_spec(normalize_glossary_spec(x).last()),
{
    let t = trim_spec(x);
    let n = normalize_glossary_spec(x);
    lemma_trim_ends(x);
    if n.len() > 0 {
        assert(n[0] == tsv_safe_char(t[0]));
        assert(n.last() == tsv_safe_char(t.last()));
    }
}

proof fn lemma_tsv_entry_roundtrip(a: Seq<char>, b: Seq<char>)
    ensures
        ({
            let s = normalize_glossary_spec(a);
            let t = normalize_glossary_spec(b);
            s.len() > 0 && t.len() > 0 ==> tsv_entry_spec(s + seq!['\t'] + t) == Some((s, t))
        }),
{
    let s = normalize_glossary_spec(a);
    let t = normalize_glossary_spec(b);
    lemma_normalized_shape(a);
    lemma_normalized_shape(b);
    if s.len() > 0 && t.len() > 0 {
        let line = s + seq!['\t'] + t;
        assert(line[0] == s[0]);
        assert(line.last() == t.last());
        lemma_trim_identity(line);
        lemma_split_once_at_char(s, '\t', t);
        assert(s.last() == s[s.len() - 1]);
        lemma_trim_identity(s);
        lemma_trim_identity(t);
    }
}

proof fn lemma_tsv_lines_read_back(entries: Seq<(Seq<char>, Seq<char>)>)
    ensures
        tsv_entries_of(tsv_lines(entries)) == glossary_pairs(entries),
        forall|k: int, i: int|
            0 <= k < tsv_lines(entries).len() && 0 <= i < tsv_lines(entries)[k].len() ==> #[trigger] tsv_lines(
                entries,
            )[k][i] != '\n',
        forall|k: int|
            0 <= k < tsv_lines(entries).len() ==> #[trigger] tsv_lines(entries)[k].len() > 0
                && !is_whitespace_spec(tsv_lines(entries)[k].last()),
    decreases entries.len(),
{
    if entries.len() > 0 {
        let init = entries.drop_last();
        lemma_tsv_lines_read_back(init);
        let s = normalize_glossary_spec(entries.last().0);
        let t = normalize_glossary_spec(entries.last().1);
        lemma_tsv_entry_roundtrip(entries.last().0, entries.last().1);
        lemma_normalized_shape(entries.last().0);
        lemma_normalized_shape(entries.last().1);
        let p = tsv_lines(init);
        if s.len() > 0 && t.len() > 0 {
            let line = s + seq!['\t'] + t;
            let q = p.push(line);
            assert(q.drop_last() =~= p);
            assert(line.last() == t.last());
            assert forall|k: int, i: int| 0 <= k < q.len() && 0 <= i < q[k].len() implies #[trigger] q[k][i] != '\n' by {
                if k < p.len() {
                    assert(q[k] == p[k]);
                } else {
                    if i < s.len() {
                        assert(line[i] == s[i]);
                    } else if i > s.len() {
                        assert(line[i] == t[i - s.len() - 1]);
                    }
                }
            }
            assert forall|k: int| 0 <= k < q.len() implies #[trigger] q[k].len() > 0 && !is_whitespace_spec(q[k].last()) by {
                if k < p.len() {
                    assert(q[k] == p[k]);
                }
            }
        }
    }
}

/// Uploading the glossary and loading it back gives its entries, normalized
/// and without the ones left blank: `parse_tsv_entries` of what
/// `glossary_entries_to_tsv` produced is `glossary_pairs` of the entries.
pub proof fn law_glossary_tsv_roundtrip(entries: Seq<(Seq<char>, Seq<char>)>)
    requires
        tsv_lines(entries).len() > 0,
    ensures
        tsv_entries_of(lines_spec(join_spec(tsv_lines(entries), seq!['\n']))) == glossary_pairs(entries),
{
    let lines = tsv_lines(entries);
    lemma_tsv_lines_read_back(entries);
    assert forall|k: int| 0 <= k < lines.len() implies strip_cr(#[trigger] lines[k]) == lines[k] by {
        assert(!is_whitespace_spec(lines[k].last()));
    }
    lemma_lines_of_join(lines);
}

} // verus!
