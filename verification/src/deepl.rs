//! The request-building and reply-reading side of the DeepL client: what a
//! translation request carries, how replies are put back in place, the TSV
//! glossary format, and the texts of API errors.

use vstd::prelude::*;
use crate::text::{
    chars_of, collapse_whitespace, collapse_whitespace_spec, lines_spec, push_decimal,
    decimal_spec, split_lines, split_once, split_once_spec, str_to_uppercase, string_from_chars,
    to_uppercase_spec, trim_chars, trim_spec, append_chars, lemma_words_no_whitespace,
    lemma_words_nonempty, lemma_words_of_joined_words, words_spec,
};

verus! {

/// The base URL of the DeepL API: the free or the paid endpoint.
pub open spec fn base_url_spec(use_free_api: bool) -> Seq<char> {
    if use_free_api {
        "https://api-free.deepl.com"@
    } else {
        "https://api.deepl.com"@
    }
}

/// The base URL of the DeepL API for the chosen plan.
pub fn deepl_base_url(use_free_api: bool) -> (r: String)
    ensures
        r@ == base_url_spec(use_free_api),
{
    if use_free_api {
        "https://api-free.deepl.com".to_string()
    } else {
        "https://api.deepl.com".to_string()
    }
}

/// A text as it is sent for translation: its words separated by single spaces.
pub fn normalize_translation_text(text: &str) -> (r: String)
    ensures
        r@ == collapse_whitespace_spec(text@),
{
    string_from_chars(&collapse_whitespace(&chars_of(text)))
}

/// Normalizing text twice gives what normalizing it once gives: the
/// normalized text is already single-spaced.
pub proof fn law_normalize_idempotent(text: Seq<char>)
    ensures
        collapse_whitespace_spec(collapse_whitespace_spec(text)) == collapse_whitespace_spec(text),
{
    lemma_words_nonempty(text);
    lemma_words_no_whitespace(text);
    lemma_words_of_joined_words(words_spec(text));
}

/// What one translation call sends, and where the answers go.
pub struct TranslationPlan {
    /// The normalized text of every input, in order.
    pub normalized: Vec<String>,
    /// The inputs whose normalized text is not empty, by index, ascending.
    pub request_positions: Vec<usize>,
    /// The normalized texts of those inputs, in the same order.
    pub request_texts: Vec<String>,
    /// The target language, upper-cased.
    pub target_lang: String,
    /// The source language, trimmed and upper-cased, when one was given.
    pub source_lang: Option<String>,
    /// The glossary, sent only together with a source language.
    pub glossary_id: Option<String>,
    /// The normalized context, when it is not empty.
    pub context: Option<String>,
}

/// The views of a vector of strings.
pub open spec fn strings_view(v: Seq<String>) -> Seq<Seq<char>> {
    v.map_values(|s: String| s@)
}

/// The view of an optional string.
pub open spec fn opt_view(s: Option<String>) -> Option<Seq<char>> {
    match s {
        Some(x) => Some(x@),
        None => None,
    }
}

/// Whether `positions` lists, in ascending order, exactly the indices of the
/// non-empty texts of `normalized`, and `texts` holds those texts.
pub open spec fn is_request_of(normalized: Seq<Seq<char>>, positions: Seq<usize>, texts: Seq<Seq<char>>) -> bool {
    &&& positions.len() == texts.len()
    &&& forall|k: int|
        0 <= k < positions.len() ==> 0 <= #[trigger] positions[k] < normalized.len()
            && texts[k] == normalized[positions[k] as int] && normalized[positions[k] as int].len()
            > 0
    &&& forall|k: int, l: int| 0 <= k < l < positions.len() ==> positions[k] < positions[l]
    &&& forall|i: int|
        0 <= i < normalized.len() && normalized[i].len() > 0 ==> exists|k: int|
            0 <= k < positions.len() && #[trigger] positions[k] == i
}

/// What the DeepL shortcuts ask for.
#[derive(Clone, Copy, Debug, PartialEq, Eq, Structural)]
pub enum DeepLShortcut {
    /// Ctrl+Shift+T: translate the batch of lines from the focused one.
    TranslateLines,
    /// Ctrl+T: translate the focused line.
    TranslateLine,
    /// Ctrl+A: look up alternatives for the selection or word.
    Alternatives,
}

/// The batch shortcut wins over the single-line one, which wins over the
/// alternatives one.
pub open spec fn deepl_shortcut_spec(lines_pressed: bool, line_pressed: bool, alternatives_pressed: bool) -> Option<DeepLShortcut> {
    if lines_pressed {
        Some(DeepLShortcut::TranslateLines)
    } else if line_pressed {
        Some(DeepLShortcut::TranslateLine)
    } else if alternatives_pressed {
        Some(DeepLShortcut::Alternatives)
    } else {
        None
    }
}

/// The DeepL command for this frame, given which shortcuts were pressed
/// (each one checked only when none before it was).
pub fn deepl_shortcut_from_keys(lines_pressed: bool, line_pressed: bool, alternatives_pressed: bool) -> (r: Option<DeepLShortcut>)
    ensures
        r == deepl_shortcut_spec(lines_pressed, line_pressed, alternatives_pressed),
{
    if lines_pressed {
        Some(DeepLShortcut::TranslateLines)
    } else if line_pressed {
        Some(DeepLShortcut::TranslateLine)
    } else if alternatives_pressed {
        Some(DeepLShortcut::Alternatives)
    } else {
        None
    }
}

/// The plan of a translation call for these inputs.
pub fn plan_translation(
    texts: &Vec<String>,
    source_lang: Option<&str>,
    target_lang: &str,
    glossary_id: Option<&str>,
    context: Option<&str>,
) -> (p: TranslationPlan)
    ensures
        strings_view(p.normalized@) == texts@.map_values(|s: String| collapse_whitespace_spec(s@)),
        is_request_of(strings_view(p.normalized@), p.request_positions@, strings_view(p.request_texts@)),
        p.target_lang@ == to_uppercase_spec(target_lang@),
        opt_view(p.source_lang) == match source_lang {
            Some(s) => if trim_spec(s@).len() > 0 {
                Some(to_uppercase_spec(trim_spec(s@)))
            } else {
                None
            },
            None => None,
        },
        opt_view(p.glossary_id) == match glossary_id {
            Some(g) => if p.source_lang is Some {
                Some(g@)
            } else {
                None
            },
            None => None,
        },
        opt_view(p.context) == match context {
            Some(c) => if collapse_whitespace_spec(c@).len() > 0 {
                Some(collapse_whitespace_spec(c@))
            } else {
                None
            },
            None => None,
        },
{
    let mut normalized: Vec<String> = Vec::new();
    let mut positions: Vec<usize> = Vec::new();
    let mut request: Vec<String> = Vec::new();
    let ghost expected = texts@.map_values(|s: String| collapse_whitespace_spec(s@));
    let mut i: usize = 0;
    while i < texts.len()
        invariant
            i <= texts.len(),
            expected == texts@.map_values(|s: String| collapse_whitespace_spec(s@)),
            strings_view(normalized@) == expected.take(i as int),
            is_request_of(expected.take(i as int), positions@, strings_view(request@)),
            forall|k: int| 0 <= k < positions@.len() ==> positions@[k] < i,
        decreases texts.len() - i,
    {
        let n = collapse_whitespace(&chars_of(texts[i].as_str()));
        let ghost prev_norm = strings_view(normalized@);
        let ghost prev_pos = positions@;
        let ghost prev_req = strings_view(request@);
        let nonempty = n.len() > 0;
        normalized.push(string_from_chars(&n));
        if nonempty {
            positions.push(i);
            request.push(string_from_chars(&n));
        }
        proof {
            let e = expected.take(i + 1);
            assert(expected.take(i as int) =~= e.drop_last());
            assert(strings_view(normalized@) =~= e);
            if nonempty {
                assert(strings_view(request@) =~= prev_req.push(n@));
            } else {
                assert(strings_view(request@) =~= prev_req);
            }
            assert forall|j: int| 0 <= j < e.len() && e[j].len() > 0 implies exists|k: int|
                0 <= k < positions@.len() && #[trigger] positions@[k] == j by {
                if j < i {
                    assert(expected.take(i as int)[j] == e[j]);
                    let k = choose|k: int| 0 <= k < prev_pos.len() && #[trigger] prev_pos[k] == j;
                    assert(positions@[k] == j);
                } else {
                    assert(positions@[positions@.len() - 1] == j);
                }
            }
            assert forall|k: int| 0 <= k < positions@.len() implies 0 <= #[trigger] positions@[k]
                < e.len() && strings_view(request@)[k] == e[positions@[k] as int] && e[positions@[k] as int].len() > 0 by {
                if k < prev_pos.len() {
                    assert(expected.take(i as int)[positions@[k] as int] == e[positions@[k] as int]);
                }
            }
        }
        i = i + 1;
    }
    proof {
        assert(expected.take(i as int) =~= expected);
    }
    let target = str_to_uppercase(target_lang);
    let source: Option<String> = match source_lang {
        Some(s) => {
            let t = trim_chars(&chars_of(s));
            if t.len() > 0 {
                Some(str_to_uppercase(string_from_chars(&t).as_str()))
            } else {
                None
            }
        },
        None => None,
    };
    let glossary: Option<String> = match glossary_id {
        Some(g) => if source.is_some() {
            Some(string_from_chars(&chars_of(g)))
        } else {
            None
        },
        None => None,
    };
    let ctx: Option<String> = match context {
        Some(c) => {
            let n = collapse_whitespace(&chars_of(c));
            if n.len() > 0 {
                Some(string_from_chars(&n))
            } else {
                None
            }
        },
        None => None,
    };
    TranslationPlan {
        normalized,
        request_positions: positions,
        request_texts: request,
        target_lang: target,
        source_lang: source,
        glossary_id: glossary,
        context: ctx,
    }
}

/// The message given when DeepL answers with fewer or more translations than
/// texts sent.
pub open spec fn incomplete_translation_message() -> Seq<char> {
    "DeepL вернул неполный результат перевода"@
}

/// Whether `out` puts the `k`-th translation at the `k`-th requested
/// position and leaves every other text empty.
pub open spec fn is_placed(out: Seq<Seq<char>>, n: int, positions: Seq<usize>, translations: Seq<Seq<char>>) -> bool {
    &&& out.len() == n
    &&& forall|k: int| 0 <= k < positions.len() ==> out[#[trigger] positions[k] as int] == translations[k]
    &&& forall|i: int|
        0 <= i < n && (forall|k: int| 0 <= k < positions.len() ==> #[trigger] positions[k] != i)
            ==> out[i].len() == 0
}

/// Puts the translations DeepL returned back in the places of their texts;
/// texts that were empty stay empty. An error when the number of translations
/// is not the number of texts sent.
pub fn finish_translation(plan: &TranslationPlan, translations: Vec<String>) -> (r: Result<Vec<String>, String>)
    requires
        is_request_of(
            strings_view(plan.normalized@),
            plan.request_positions@,
            strings_view(plan.request_texts@),
        ),
    ensures
        translations@.len() != plan.request_positions@.len() ==> r is Err && r->Err_0@
            == incomplete_translation_message(),
        translations@.len() == plan.request_positions@.len() ==> r is Ok && is_placed(
            strings_view(r->Ok_0@),
            plan.normalized@.len() as int,
            plan.request_positions@,
            strings_view(translations@),
        ),
{
    if translations.len() != plan.request_positions.len() {
        return Err("DeepL вернул неполный результат перевода".to_string());
    }
    let n = plan.normalized.len();
    let mut output: Vec<String> = Vec::new();
    let mut i: usize = 0;
    while i < n
        invariant
            i <= n,
            output@.len() == i,
            forall|j: int| 0 <= j < i ==> (#[trigger] output@[j])@.len() == 0,
        decreases n - i,
    {
        output.push(String::new());
        i = i + 1;
    }
    let ghost positions = plan.request_positions@;
    let mut k: usize = 0;
    while k < translations.len()
        invariant
            k <= translations.len(),
            translations@.len() == positions.len(),
            positions == plan.request_positions@,
            output@.len() == n,
            n == plan.normalized@.len(),
            is_request_of(
                strings_view(plan.normalized@),
                plan.request_positions@,
                strings_view(plan.request_texts@),
            ),
            forall|m: int| 0 <= m < k ==> output@[#[trigger] positions[m] as int]@ == translations@[m]@,
            forall|j: int|
                0 <= j < n && (forall|m: int| 0 <= m < k ==> #[trigger] positions[m] != j)
                    ==> output@[j]@.len() == 0,
        decreases translations.len() - k,
    {
        let pos = plan.request_positions[k];
        let t = translations[k].clone();
        output.set(pos, t);
        proof {
            assert forall|m: int| 0 <= m < k implies output@[#[trigger] positions[m] as int]@
                == translations@[m]@ by {
                assert(positions[m] < positions[k as int]);
            }
        }
        k = k + 1;
    }
    proof {
        assert(strings_view(output@).len() == n);
    }
    Ok(output)
}

// ---------------------------------------------------------------------
// Glossary entries as TSV
// ---------------------------------------------------------------------

/// The glossary pair a TSV line holds: the trimmed texts before and after its
/// first tab, when the line and both texts are non-empty.
pub open spec fn tsv_entry_spec(line: Seq<char>) -> Option<(Seq<char>, Seq<char>)> {
    let t = trim_spec(line);
    if t.len() == 0 {
        None
    } else {
        match split_once_spec(t, seq!['\t']) {
            None => None,
            Some((a, b)) => {
                let s = trim_spec(a);
                let g = trim_spec(b);
                if s.len() == 0 || g.len() == 0 {
                    None
                } else {
                    Some((s, g))
                }
            },
        }
    }
}

/// The pairs of the lines that hold one, in order.
pub open spec fn tsv_entries_of(lines: Seq<Seq<char>>) -> Seq<(Seq<char>, Seq<char>)>
    decreases lines.len(),
{
    if lines.len() == 0 {
        seq![]
    } else {
        let p = tsv_entries_of(lines.drop_last());
        match tsv_entry_spec(lines.last()) {
            Some(e) => p.push(e),
            None => p,
        }
    }
}

/// The views of string pairs.
pub open spec fn pairs_view(v: Seq<(String, String)>) -> Seq<(Seq<char>, Seq<char>)> {
    v.map_values(|p: (String, String)| (p.0@, p.1@))
}

fn tsv_entry(line: &Vec<char>) -> (r: Option<(Vec<char>, Vec<char>)>)
    ensures
        match tsv_entry_spec(line@) {
            None => r is None,
            Some((s, g)) => match r {
                Some((x, y)) => x@ == s && y@ == g,
                None => false,
            },
        },
{
    let t = trim_chars(line);
    if t.len() == 0 {
        return None;
    }
    let tab = vec!['\t'];
    proof {
        assert(tab@ =~= seq!['\t']);
    }
    match split_once(&t, &tab) {
        None => None,
        Some((a, b)) => {
            let s = trim_chars(&a);
            let g = trim_chars(&b);
            if s.len() == 0 || g.len() == 0 {
                None
            } else {
                Some((s, g))
            }
        },
    }
}

/// The glossary pairs of DeepL's TSV text.
pub fn parse_tsv_entries(entries: &str) -> (r: Vec<(String, String)>)
    ensures
        pairs_view(r@) == tsv_entries_of(lines_spec(entries@)),
{
    let lines = split_lines(&chars_of(entries));
    let ghost lv = lines@.map_values(|p: Vec<char>| p@);
    let mut out: Vec<(String, String)> = Vec::new();
    let mut i: usize = 0;
    while i < lines.len()
        invariant
            i <= lines.len(),
            lv == lines@.map_values(|p: Vec<char>| p@),
            pairs_view(out@) == tsv_entries_of(lv.take(i as int)),
        decreases lines.len() - i,
    {
        proof {
            assert(lv.take(i + 1).drop_last() =~= lv.take(i as int));
            assert(lv.take(i + 1).last() == lines@[i as int]@);
        }
        let ghost before = pairs_view(out@);
        match tsv_entry(&lines[i]) {
            Some((s, g)) => {
                let pair = (string_from_chars(&s), string_from_chars(&g));
                out.push(pair);
                proof {
                    assert(pairs_view(out@) =~= before.push((s@, g@)));
                }
            },
            None => {},
        }
        i = i + 1;
    }
    proof {
        assert(lv.take(i as int) =~= lv);
    }
    out
}

} // verus!

verus! {

// ---------------------------------------------------------------------
// Error and usage texts
// ---------------------------------------------------------------------

/// The `"message"` string field of a JSON error payload, as read by
/// `serde_json::from_str::<serde_json::Value>` and `Value::get`/`as_str`;
/// `None` when the payload is not JSON or has no such string field.
pub uninterp spec fn json_error_message(payload: Seq<char>) -> Option<Seq<char>>;

/// Reads the `"message"` field of a JSON error payload with
/// `serde_json::from_str`. The contract names the result, which depends on
/// the payload alone.
#[verifier::external_body]
fn extract_error_message(payload: &str) -> (r: Option<String>)
    ensures
        opt_view(r) == json_error_message(payload@),
{
    let parsed: serde_json::Value = serde_json::from_str(payload).ok()?;
    parsed.get("message").and_then(serde_json::Value::as_str).map(|value| value.to_string())
}

/// The prefix of the quota-exceeded (status 456) error text.
pub open spec fn quota_message_prefix() -> Seq<char> {
    "DeepL 456: квота исчерпана. Обычно это лимит символов/документов текущего периода. "@
}

/// The text of an API error: the payload's message (or the payload itself),
/// after the status; for status 456, a quota explanation and the usage hint.
pub open spec fn api_error_text_spec(
    status: u16,
    payload: Seq<char>,
    message: Option<Seq<char>>,
    usage_hint: Option<Seq<char>>,
) -> Seq<char> {
    let m = match message {
        Some(x) => x,
        None => payload,
    };
    if status == 456 {
        quota_message_prefix() + m + match usage_hint {
            Some(h) => seq![' '] + h,
            None => seq![],
        }
    } else {
        "DeepL "@ + decimal_spec(status as nat) + ": "@ + m
    }
}

/// Whether an error status asks for the account's usage to be looked up
/// (status 456, quota exceeded).
pub fn needs_usage_hint(status: u16) -> (r: bool)
    ensures
        r == (status == 456),
{
    status == 456
}

/// The text of an API error, given the message read from its payload.
pub fn api_error_text(status: u16, payload: &str, message: Option<String>, usage_hint: Option<String>) -> (r: String)
    ensures
        r@ == api_error_text_spec(status, payload@, opt_view(message), opt_view(usage_hint)),
{
    let m = match message {
        Some(x) => chars_of(x.as_str()),
        None => chars_of(payload),
    };
    if status == 456 {
        let mut out = chars_of(
            "DeepL 456: квота исчерпана. Обычно это лимит символов/документов текущего периода. ",
        );
        append_chars(&mut out, &m);
        let ghost before_hint = out@;
        match usage_hint {
            Some(h) => {
                out.push(' ');
                append_chars(&mut out, &chars_of(h.as_str()));
                proof {
                    assert(out@ =~= before_hint + (seq![' '] + h@));
                }
            },
            None => {
                proof {
                    assert(out@ =~= before_hint + Seq::<char>::empty());
                }
            },
        }
        string_from_chars(&out)
    } else {
        let mut out = chars_of("DeepL ");
        push_decimal(&mut out, status as u64, 0);
        append_chars(&mut out, &chars_of(": "));
        append_chars(&mut out, &m);
        string_from_chars(&out)
    }
}

/// The text of an API error for a status and payload; the payload's message
/// is read as JSON.
pub fn format_api_error(status: u16, payload: &str, usage_hint: Option<String>) -> (r: String)
    ensures
        r@ == api_error_text_spec(status, payload@, json_error_message(payload@), opt_view(usage_hint)),
{
    let message = extract_error_message(payload);
    api_error_text(status, payload, message, usage_hint)
}

/// The part of the usage hint for one counter: `label count/limit`, when
/// both numbers are known.
pub open spec fn usage_part(label: Seq<char>, count: Option<u64>, limit: Option<u64>) -> Option<Seq<char>> {
    match (count, limit) {
        (Some(c), Some(l)) => Some(label + decimal_spec(c as nat) + seq!['/'] + decimal_spec(l as nat)),
        _ => None,
    }
}

/// The usage hint for the quota error: the known character and document
/// counters, or `None` when neither is known.
pub open spec fn usage_hint_spec(
    character_count: Option<u64>,
    character_limit: Option<u64>,
    document_count: Option<u64>,
    document_limit: Option<u64>,
) -> Option<Seq<char>> {
    let a = usage_part("символы: "@, character_count, character_limit);
    let b = usage_part("документы: "@, document_count, document_limit);
    let body = match (a, b) {
        (Some(x), Some(y)) => Some(x + ", "@ + y),
        (Some(x), None) => Some(x),
        (None, Some(y)) => Some(y),
        (None, None) => None,
    };
    match body {
        Some(t) => Some("Текущее usage: "@ + t + seq!['.']),
        None => None,
    }
}

fn usage_part_exec(label: &str, count: Option<u64>, limit: Option<u64>) -> (r: Option<Vec<char>>)
    ensures
        match usage_part(label@, count, limit) {
            Some(t) => r is Some && r->0@ == t,
            None => r is None,
        },
{
    match (count, limit) {
        (Some(c), Some(l)) => {
            let mut out = chars_of(label);
            push_decimal(&mut out, c, 0);
            out.push('/');
            push_decimal(&mut out, l, 0);
            Some(out)
        },
        _ => None,
    }
}

/// The usage hint shown with the quota error.
pub fn usage_hint_text(
    character_count: Option<u64>,
    character_limit: Option<u64>,
    document_count: Option<u64>,
    document_limit: Option<u64>,
) -> (r: Option<String>)
    ensures
        opt_view(r) == usage_hint_spec(character_count, character_limit, document_count, document_limit),
{
    let a = usage_part_exec("символы: ", character_count, character_limit);
    let b = usage_part_exec("документы: ", document_count, document_limit);
    let body: Option<Vec<char>> = match (a, b) {
        (Some(x), Some(y)) => {
            let mut t = x;
            append_chars(&mut t, &chars_of(", "));
            append_chars(&mut t, &y);
            Some(t)
        },
        (Some(x), None) => Some(x),
        (None, Some(y)) => Some(y),
        (None, None) => None,
    };
    match body {
        Some(t) => {
            let mut out = chars_of("Текущее usage: ");
            append_chars(&mut out, &t);
            out.push('.');
            Some(string_from_chars(&out))
        },
        None => None,
    }
}

// ---------------------------------------------------------------------
// Alternatives
// ---------------------------------------------------------------------

/// The writing styles tried when looking for alternatives (`None` is the default).
pub open spec fn rephrase_styles() -> Seq<Option<Seq<char>>> {
    seq![None, Some("simple"@), Some("casual"@), Some("business"@)]
}

/// The tones tried when looking for alternatives (`None` is the default).
pub open spec fn rephrase_tones() -> Seq<Option<Seq<char>>> {
    seq![None, Some("friendly"@), Some("confident"@)]
}

fn opt_str(s: Option<&str>) -> (r: Option<String>)
    ensures
        opt_view(r) == match s {
            Some(x) => Some(x@),
            None => None,
        },
{
    match s {
        Some(x) => Some(string_from_chars(&chars_of(x))),
        None => None,
    }
}

/// Every (style, tone) pair to ask DeepL's rephrasing for, styles outermost.
pub fn rephrase_variants() -> (r: Vec<(Option<String>, Option<String>)>)
    ensures
        r@.len() == 12,
        forall|i: int|
            0 <= i < 12 ==> opt_view(#[trigger] r@[i].0) == rephrase_styles()[i / 3] && opt_view(
                r@[i].1,
            ) == rephrase_tones()[i % 3],
{
    let styles = [None, Some("simple"), Some("casual"), Some("business")];
    let tones = [None, Some("friendly"), Some("confident")];
    let mut out: Vec<(Option<String>, Option<String>)> = Vec::new();
    let mut s: usize = 0;
    while s < 4
        invariant
            s <= 4,
            styles@ == seq![None, Some("simple"), Some("casual"), Some("business")],
            tones@ == seq![None, Some("friendly"), Some("confident")],
            out@.len() == 3 * s,
            forall|i: int|
                0 <= i < 3 * s ==> opt_view(#[trigger] out@[i].0) == rephrase_styles()[i / 3]
                    && opt_view(out@[i].1) == rephrase_tones()[i % 3],
        decreases 4 - s,
    {
        let mut t: usize = 0;
        while t < 3
            invariant
                s < 4,
                t <= 3,
                styles@ == seq![None, Some("simple"), Some("casual"), Some("business")],
                tones@ == seq![None, Some("friendly"), Some("confident")],
                out@.len() == 3 * s + t,
                forall|i: int|
                    0 <= i < 3 * s + t ==> opt_view(#[trigger] out@[i].0) == rephrase_styles()[i
                        / 3] && opt_view(out@[i].1) == rephrase_tones()[i % 3],
            decreases 3 - t,
        {
            out.push((opt_str(styles[s]), opt_str(tones[t])));
            t = t + 1;
        }
        s = s + 1;
    }
    out
}

/// Whether a rephrasing is worth offering: non-blank and, trimmed, different
/// from the trimmed original.
pub open spec fn is_candidate_spec(item: Seq<char>, text: Seq<char>) -> bool {
    trim_spec(item).len() > 0 && trim_spec(item) != trim_spec(text)
}

/// Whether a rephrasing is worth offering.
pub fn is_alternative_candidate(item: &str, text: &str) -> (r: bool)
    ensures
        r == is_candidate_spec(item@, text@),
{
    let a = trim_chars(&chars_of(item));
    let b = trim_chars(&chars_of(text));
    a.len() > 0 && !crate::text::chars_eq(&a, &b)
}

/// Lexicographic order of texts by Unicode scalar value, which is the order
/// of `String` (its UTF-8 bytes compare the same way).
pub open spec fn lex_lt(a: Seq<char>, b: Seq<char>) -> bool
    decreases a.len(),
{
    if b.len() == 0 {
        false
    } else if a.len() == 0 {
        true
    } else if a[0] != b[0] {
        a[0] < b[0]
    } else {
        lex_lt(a.drop_first(), b.drop_first())
    }
}

/// The order is transitive.
pub proof fn lemma_lex_transitive(a: Seq<char>, b: Seq<char>, c: Seq<char>)
    requires
        lex_lt(a, b),
        lex_lt(b, c),
    ensures
        lex_lt(a, c),
    decreases a.len(),
{
    if a.len() > 0 && b.len() > 0 && c.len() > 0 && a[0] == b[0] && b[0] == c[0] {
        lemma_lex_transitive(a.drop_first(), b.drop_first(), c.drop_first());
    }
}

/// Any two texts are ordered one way or the other, or are equal.
pub proof fn lemma_lex_total(a: Seq<char>, b: Seq<char>)
    ensures
        lex_lt(a, b) || a == b || lex_lt(b, a),
    decreases a.len(),
{
    if a.len() == 0 && b.len() == 0 {
        assert(a =~= b);
    } else if a.len() > 0 && b.len() > 0 && a[0] == b[0] {
        lemma_lex_total(a.drop_first(), b.drop_first());
        if a.drop_first() == b.drop_first() {
            assert forall|k: int| 0 <= k < a.len() implies a[k] == b[k] by {
                if k > 0 {
                    assert(a[k] == a.drop_first()[k - 1]);
                    assert(b[k] == b.drop_first()[k - 1]);
                }
            }
            assert(a =~= b);
        }
    }
}

/// No text is below itself.
pub proof fn lemma_lex_irreflexive(a: Seq<char>)
    ensures
        !lex_lt(a, a),
    decreases a.len(),
{
    if a.len() > 0 {
        lemma_lex_irreflexive(a.drop_first());
    }
}

/// Whether `a` sorts before `b`.
pub fn lex_less(a: &Vec<char>, b: &Vec<char>) -> (r: bool)
    ensures
        r == lex_lt(a@, b@),
{
    let mut i: usize = 0;
    proof {
        assert(a@.skip(0) =~= a@);
        assert(b@.skip(0) =~= b@);
    }
    while i < a.len() && i < b.len()
        invariant
            i <= a.len(),
            i <= b.len(),
            lex_lt(a@, b@) == lex_lt(a@.skip(i as int), b@.skip(i as int)),
        decreases a.len() - i,
    {
        if a[i] != b[i] {
            proof {
                assert(a@.skip(i as int)[0] == a@[i as int]);
                assert(b@.skip(i as int)[0] == b@[i as int]);
            }
            return a[i] < b[i];
        }
        proof {
            assert(a@.skip(i as int).drop_first() =~= a@.skip(i + 1));
            assert(b@.skip(i as int).drop_first() =~= b@.skip(i + 1));
        }
        i = i + 1;
    }
    a.len() < b.len()
}

/// Whether `v` is strictly increasing.
pub open spec fn strictly_sorted(v: Seq<Seq<char>>) -> bool {
    forall|i: int, j: int| 0 <= i < j < v.len() ==> lex_lt(#[trigger] v[i], #[trigger] v[j])
}

/// Adds `item` to a strictly increasing list of texts, keeping it so.
pub fn insert_sorted(set: &mut Vec<String>, item: String)
    requires
        strictly_sorted(strings_view(old(set)@)),
    ensures
        strictly_sorted(strings_view(final(set)@)),
        forall|t: Seq<char>|
            #![trigger strings_view(final(set)@).contains(t)]
            #![trigger strings_view(old(set)@).contains(t)]
            strings_view(final(set)@).contains(t) <==> (strings_view(old(set)@).contains(t) || t
                == item@),
{
    let x = chars_of(item.as_str());
    let ghost v = strings_view(set@);
    let mut i: usize = 0;
    while i < set.len() && lex_less(&chars_of(set[i].as_str()), &x)
        invariant
            i <= set.len(),
            v == strings_view(set@),
            forall|j: int| 0 <= j < i ==> lex_lt(#[trigger] v[j], x@),
        decreases set.len() - i,
    {
        i = i + 1;
    }
    if i < set.len() && set[i].eq(&item) {
        proof {
            assert(v[i as int] == item@);
        }
        return;
    }
    proof {
        if i < set.len() {
            lemma_lex_total(v[i as int], x@);
        }
    }
    proof {
        if i < set.len() {
            assert(!lex_lt(v[i as int], x@));
            assert(v[i as int] != x@);
            assert(lex_lt(x@, v[i as int]));
        }
    }
    set.insert(i, item);
    proof {
        let w = strings_view(set@);
        assert(w =~= v.insert(i as int, x@));
        assert forall|b: int| i < b < w.len() implies lex_lt(x@, #[trigger] w[b]) by {
            assert(w[b] == v[b - 1]);
            if b - 1 > i {
                lemma_lex_transitive(x@, v[i as int], v[b - 1]);
            }
        }
        assert forall|a: int, b: int| 0 <= a < b < w.len() implies lex_lt(#[trigger] w[a], #[trigger] w[b]) by {
            if b < i {
                assert(w[a] == v[a] && w[b] == v[b]);
            } else if b == i {
                assert(w[a] == v[a]);
            } else if a < i {
                assert(w[a] == v[a]);
                lemma_lex_transitive(w[a], x@, w[b]);
            } else if a == i {
            } else {
                assert(w[a] == v[a - 1] && w[b] == v[b - 1]);
            }
        }
        assert forall|t: Seq<char>| w.contains(t) <==> (v.contains(t) || t == x@) by {
            if w.contains(t) {
                let k = choose|k: int| 0 <= k < w.len() && #[trigger] w[k] == t;
                if k < i {
                    assert(v[k] == t);
                } else if k > i {
                    assert(v[k - 1] == t);
                }
            }
            if v.contains(t) {
                let k = choose|k: int| 0 <= k < v.len() && #[trigger] v[k] == t;
                if k < i {
                    assert(w[k] == t);
                } else {
                    assert(w[k + 1] == t);
                }
            }
            if t == x@ {
                assert(w[i as int] == t);
            }
        }
    }
}

/// The alternatives to offer from DeepL's answers: the candidates, without
/// repeats, in ascending order.
pub fn collect_alternatives(items: &Vec<String>, text: &str) -> (r: Vec<String>)
    ensures
        strictly_sorted(strings_view(r@)),
        forall|t: Seq<char>|
            #![trigger strings_view(r@).contains(t)]
            #![trigger strings_view(items@).contains(t)]
            strings_view(r@).contains(t) <==> (strings_view(items@).contains(t) && is_candidate_spec(
                t,
                text@,
            )),
{
    let ghost iv = strings_view(items@);
    let mut out: Vec<String> = Vec::new();
    let mut i: usize = 0;
    while i < items.len()
        invariant
            i <= items.len(),
            iv == strings_view(items@),
            strictly_sorted(strings_view(out@)),
            forall|t: Seq<char>|
                #![trigger strings_view(out@).contains(t)]
                #![trigger iv.take(i as int).contains(t)]
                strings_view(out@).contains(t) <==> (iv.take(i as int).contains(t)
                    && is_candidate_spec(t, text@)),
        decreases items.len() - i,
    {
        let ghost before = strings_view(out@);
        let cand = is_alternative_candidate(items[i].as_str(), text);
        if cand {
            let it = items[i].clone();
            proof {
                assert(it@ == items@[i as int]@);
            }
            insert_sorted(&mut out, it);
        }
        proof {
            let after = strings_view(out@);
            let item = iv[i as int];
            assert(item == items@[i as int]@);
            assert(iv.take(i + 1) =~= iv.take(i as int).push(item));
            assert forall|t: Seq<char>| after.contains(t) <==> (iv.take(i + 1).contains(t)
                && is_candidate_spec(t, text@)) by {
                assert(iv.take(i + 1).contains(t) <==> (iv.take(i as int).contains(t) || t == item)) by {
                    if iv.take(i + 1).contains(t) {
                        let k = choose|k: int| 0 <= k < i + 1 && #[trigger] iv.take(i + 1)[k] == t;
                        if k < i {
                            assert(iv.take(i as int)[k] == t);
                        }
                    }
                    if iv.take(i as int).contains(t) {
                        let k = choose|k: int| 0 <= k < i && #[trigger] iv.take(i as int)[k] == t;
                        assert(iv.take(i + 1)[k] == t);
                    }
                    if t == item {
                        assert(iv.take(i + 1)[i as int] == t);
                    }
                }
                if !cand {
                    assert(after == before);
                } else if after.contains(t) {
                    if before.contains(t) {
                        assert(iv.take(i as int).contains(t) && is_candidate_spec(t, text@));
                    } else {
                        assert(t == item);
                    }
                }
            }
        }
        i = i + 1;
    }
    proof {
        assert(iv.take(i as int) =~= iv);
    }
    out
}


/// A glossary stored at DeepL, as its list endpoint describes it.
#[derive(Clone, Debug)]
pub struct GlossaryMeta {
    pub glossary_id: String,
    pub name: String,
    pub dictionaries: Vec<GlossaryDictionaryMeta>,
}

/// One language pair of a stored glossary.
#[derive(Clone, Debug)]
pub struct GlossaryDictionaryMeta {
    pub source_lang: String,
    pub target_lang: String,
}

} // verus!
