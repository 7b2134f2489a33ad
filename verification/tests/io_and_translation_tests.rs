use subtitle_editor::deepl::{deepl_shortcut_from_keys, DeepLShortcut};
use subtitle_editor::deepl::{
    api_error_text, collect_alternatives, deepl_base_url, finish_translation, format_api_error,
    is_alternative_candidate, lex_less, needs_usage_hint, normalize_translation_text,
    parse_tsv_entries, plan_translation, rephrase_variants, usage_hint_text,
    GlossaryDictionaryMeta, GlossaryMeta,
};
use subtitle_editor::duration::Duration;
use subtitle_editor::editor::{
    Editor, TranslationKind, TranslationTarget, default_translation_batch_size,
    default_translation_context_radius,
};
use subtitle_editor::exporters::{
    ensure_extension, export_file, export_sbv, export_srt, export_txt, has_any_extension,
    has_extension, infer_default_export_extension, mark_saved_as_seproj, normalize_export_path,
    seproj_target_path, suggested_seproj_name, ExportPlan,
};
use subtitle_editor::importers::{
    complete_seproj_import, ends_with, import_file, import_kind, import_sbv, import_txt,
    ImportedContent,
};
use subtitle_editor::line_edit::{LineWidgetFocus, PaneSide};
use subtitle_editor::project::{ProjectState, SubtitleFileType, SubtitleLine};
use subtitle_editor::text::{char_to_byte_index, split_lines, chars_of};
use subtitle_editor::timecode::TimecodeRange;
use subtitle_editor::translation::{
    build_translation_context_from_lines, find_glossary_id, glossary_entries_to_tsv,
    glossary_has_pair, is_word_char, language_matches, normalize_glossary_text,
    replace_char_range, substring_by_char_range, word_span_at_char, GlossaryEntry,
};

fn ms(n: u64) -> Duration {
    Duration::from_millis(n)
}

fn line(text: &str, tc: Option<(u64, u64)>) -> SubtitleLine {
    SubtitleLine {
        text: text.to_string(),
        timecode: tc.map(|(a, b)| TimecodeRange { start: ms(a), end: ms(b) }),
    }
}

fn project(lines: Vec<SubtitleLine>, kind: Option<SubtitleFileType>) -> ProjectState {
    ProjectState { lines, file_type: kind, file_path: None }
}

fn strings(v: &[&str]) -> Vec<String> {
    v.iter().map(|s| s.to_string()).collect()
}

#[test]
fn imports_txt_blocks() {
    let lines = import_txt(&strings(&["  first ", "second", "", "", "third", "   "]));
    assert_eq!(lines.len(), 2);
    assert_eq!(lines[0].text, "first\nsecond");
    assert_eq!(lines[1].text, "third");
    assert_eq!(lines[0].timecode, None);
}

#[test]
fn imports_sbv_blocks() {
    let raw = strings(&["0:00:01.000,0:00:02.000", "Hello", "there", "", "0:00:03.000,0:00:04.500", "Bye", ""]);
    let lines = import_sbv(&raw).unwrap();
    assert_eq!(lines.len(), 2);
    assert_eq!(lines[0].text, "Hello\nthere");
    assert_eq!(lines[0].timecode, Some(TimecodeRange { start: ms(1_000), end: ms(2_000) }));
    assert_eq!(lines[1].timecode, Some(TimecodeRange { start: ms(3_000), end: ms(4_500) }));
}

#[test]
fn rejects_bad_sbv_timecode_line() {
    let raw = strings(&["0:00:01.000,0:00:02.000", "ok", "", "oops", "text"]);
    assert_eq!(import_sbv(&raw).err(), Some("Некорректная строка тайм-кода SBV: oops".to_string()));
}

#[test]
fn chooses_import_format() {
    assert_eq!(import_kind("a.txt"), Some(SubtitleFileType::Txt));
    assert_eq!(import_kind("a.sbv"), Some(SubtitleFileType::Sbv));
    assert_eq!(import_kind("a.seproj"), Some(SubtitleFileType::Seproj));
    assert_eq!(import_kind("a.srt"), None);
    assert!(ends_with("abc", "bc"));
    assert!(!ends_with("c", "bc"));
    let p = import_file("x.txt", ImportedContent::Lines(strings(&["a"]))).unwrap();
    assert_eq!(p.file_type, Some(SubtitleFileType::Txt));
    assert_eq!(p.file_path, Some("x.txt".to_string()));
    assert_eq!(
        import_file("x.doc", ImportedContent::Lines(vec![])).err(),
        Some("Неизвестный формат файла".to_string())
    );
    let seproj = import_file("p.seproj", ImportedContent::Project(project(vec![], None))).unwrap();
    assert_eq!(seproj.file_type, Some(SubtitleFileType::Seproj));
    assert_eq!(seproj.file_path, Some("p.seproj".to_string()));
    let kept = complete_seproj_import(
        ProjectState { lines: vec![], file_type: Some(SubtitleFileType::Srt), file_path: Some("o.srt".to_string()) },
        "p.seproj",
    );
    assert_eq!(kept.file_type, Some(SubtitleFileType::Srt));
    assert_eq!(kept.file_path, Some("o.srt".to_string()));
}

#[test]
fn exports_formats() {
    let p = project(vec![line("Hello", Some((1_000, 2_500))), line("World", Some((3_600_000, 3_600_001)))], None);
    let sbv = export_sbv(&p);
    assert_eq!(sbv.contents, "0:00:01.000,0:00:02.500\nHello\n\n1:00:00.000,1:00:00.001\nWorld\n\n");
    assert_eq!(sbv.error, None);
    let srt = export_srt(&p);
    assert_eq!(srt.contents, "1\n00:00:01,000 --> 00:00:02,500\nHello\n\n2\n01:00:00,000 --> 01:00:00,001\nWorld\n\n");
    assert_eq!(export_txt(&p), "Hello\n\nWorld\n");
    assert_eq!(export_txt(&project(vec![], None)), "");
}

#[test]
fn export_stops_at_missing_timecode() {
    let p = project(vec![line("a", Some((0, 1))), line("b", None), line("c", Some((2, 3)))], None);
    let sbv = export_sbv(&p);
    assert_eq!(sbv.contents, "0:00:00.000,0:00:00.001\na\n\n");
    assert_eq!(sbv.error, Some("Line 2 timecode is missing".to_string()));
}

#[test]
fn export_round_trips_through_import() {
    let p = project(vec![line("Hello\nthere", Some((1_000, 2_500))), line("Bye", Some((3_000, 4_000)))], None);
    let text = export_sbv(&p).contents;
    let raw: Vec<String> = text.lines().map(|s| s.to_string()).collect();
    let back = import_sbv(&raw).unwrap();
    assert_eq!(back.len(), 2);
    assert_eq!(back[0].text, "Hello\nthere");
    assert_eq!(back[0].timecode, p.lines[0].timecode);
    assert_eq!(back[1].text, "Bye");
    let t = export_txt(&p);
    let raw: Vec<String> = t.lines().map(|s| s.to_string()).collect();
    let back = import_txt(&raw);
    assert_eq!(back.len(), 2);
    assert_eq!(back[0].text, "Hello\nthere");
}

#[test]
fn export_plan_by_extension() {
    let p = project(vec![line("a", None)], None);
    match export_file(&p, "out.txt").unwrap() {
        ExportPlan::Txt(t) => assert_eq!(t, "a\n"),
        _ => panic!("expected text"),
    }
    assert!(matches!(export_file(&p, "out.seproj").unwrap(), ExportPlan::Seproj));
    assert!(matches!(export_file(&p, "out.srt").unwrap(), ExportPlan::Timed(_)));
    assert_eq!(export_file(&p, "out.doc").err(), Some("Unknown format to save as".to_string()));
}

#[test]
fn path_rules() {
    assert!(has_extension("a/b.SRT", "srt"));
    assert!(!has_extension("a/b.srt.bak", "srt"));
    assert!(!has_extension(".srt", "srt"));
    assert!(has_any_extension("x.y"));
    assert!(!has_any_extension("dir.d/file"));
    assert_eq!(ensure_extension("movie".to_string(), "seproj"), "movie.seproj");
    assert_eq!(ensure_extension("movie.SEPROJ".to_string(), "seproj"), "movie.SEPROJ");
    assert_eq!(normalize_export_path("out".to_string(), "sbv"), Ok("out.sbv".to_string()));
    assert_eq!(normalize_export_path("out.srt".to_string(), "sbv"), Ok("out.srt".to_string()));
    assert_eq!(
        normalize_export_path("out.doc".to_string(), "sbv"),
        Err("Export supports only .txt, .sbv and .srt".to_string())
    );
}

#[test]
fn default_export_extension() {
    assert_eq!(infer_default_export_extension(&project(vec![], Some(SubtitleFileType::Srt))), "srt");
    assert_eq!(infer_default_export_extension(&project(vec![line("a", None)], None)), "txt");
    assert_eq!(infer_default_export_extension(&project(vec![line("a", Some((0, 1)))], Some(SubtitleFileType::Seproj))), "sbv");
}

#[test]
fn seproj_save_paths() {
    let mut p = project(vec![], None);
    assert_eq!(suggested_seproj_name(&p), "subtitle.seproj");
    p.file_path = Some("/tmp/movie.sbv".to_string());
    assert_eq!(suggested_seproj_name(&p), "movie.seproj");
    assert_eq!(seproj_target_path(&p), None);
    let saved = mark_saved_as_seproj(&mut p, "/tmp/movie".to_string());
    assert_eq!(saved, "/tmp/movie.seproj");
    assert_eq!(p.file_path, Some("/tmp/movie.seproj".to_string()));
    assert_eq!(p.file_type, Some(SubtitleFileType::Seproj));
    assert_eq!(seproj_target_path(&p), Some("/tmp/movie.seproj".to_string()));
}

#[test]
fn normalizes_translation_text() {
    assert_eq!(normalize_translation_text("  a \n b\t\tc  "), "a b c");
    assert_eq!(normalize_translation_text(" \n "), "");
}

#[test]
fn normalizing_twice_changes_nothing_more() {
    for raw in ["  a \n b\t\tc  ", "x", "", " \u{3000}y\u{a0} z "] {
        let once = normalize_translation_text(raw);
        assert_eq!(normalize_translation_text(&once), once);
    }
    assert_eq!(normalize_translation_text(" \u{3000}y\u{a0} z "), "y z");
}

#[test]
fn plans_and_finishes_translation() {
    let texts = strings(&["  hello  world ", "   ", "bye"]);
    let plan = plan_translation(&texts, Some(" en "), "ru", Some("g1"), Some("  ctx  here "));
    assert_eq!(plan.request_positions, vec![0, 2]);
    assert_eq!(plan.request_texts, strings(&["hello world", "bye"]));
    assert_eq!(plan.target_lang, "RU");
    assert_eq!(plan.source_lang, Some("EN".to_string()));
    assert_eq!(plan.glossary_id, Some("g1".to_string()));
    assert_eq!(plan.context, Some("ctx here".to_string()));
    let out = finish_translation(&plan, strings(&["привет мир", "пока"])).unwrap();
    assert_eq!(out, strings(&["привет мир", "", "пока"]));
    assert_eq!(
        finish_translation(&plan, strings(&["x"])).err(),
        Some("DeepL вернул неполный результат перевода".to_string())
    );
    let no_source = plan_translation(&texts, Some("  "), "de", Some("g1"), None);
    assert_eq!(no_source.source_lang, None);
    assert_eq!(no_source.glossary_id, None);
}

#[test]
fn parses_tsv_entries() {
    let entries = parse_tsv_entries("hello\tпривет\r\n  \nbad line\n a \t b \t c\n\tx\n");
    assert_eq!(entries, vec![
        ("hello".to_string(), "привет".to_string()),
        ("a".to_string(), "b \t c".to_string()),
    ]);
}

#[test]
fn glossary_tsv_round_trip() {
    let entries = vec![
        GlossaryEntry { source: "  cat\tdog ".to_string(), target: "кот\nпёс".to_string() },
        GlossaryEntry { source: " ".to_string(), target: "x".to_string() },
        GlossaryEntry { source: "sun".to_string(), target: "солнце".to_string() },
    ];
    let tsv = glossary_entries_to_tsv(&entries).unwrap();
    assert_eq!(tsv, "cat dog\tкот пёс\nsun\tсолнце");
    assert_eq!(parse_tsv_entries(&tsv), vec![
        ("cat dog".to_string(), "кот пёс".to_string()),
        ("sun".to_string(), "солнце".to_string()),
    ]);
    assert_eq!(normalize_glossary_text("  a\tb\r\nc "), "a b  c");
    assert!(glossary_entries_to_tsv(&[GlossaryEntry { source: "".to_string(), target: "y".to_string() }].to_vec()).is_err());
}

#[test]
fn api_error_texts() {
    assert_eq!(api_error_text(403, "raw", Some("Forbidden".to_string()), None), "DeepL 403: Forbidden");
    assert_eq!(api_error_text(500, "raw", None, None), "DeepL 500: raw");
    assert_eq!(
        api_error_text(456, "p", Some("Quota".to_string()), Some("hint".to_string())),
        "DeepL 456: квота исчерпана. Обычно это лимит символов/документов текущего периода. Quota hint"
    );
    assert_eq!(format_api_error(400, "{\"message\":\"Bad request\"}", None), "DeepL 400: Bad request");
    assert_eq!(format_api_error(400, "not json", None), "DeepL 400: not json");
    assert!(needs_usage_hint(456));
    assert!(!needs_usage_hint(403));
    assert_eq!(usage_hint_text(Some(10), Some(500), None, Some(3)), Some("Текущее usage: символы: 10/500.".to_string()));
    assert_eq!(
        usage_hint_text(Some(1), Some(2), Some(3), Some(4)),
        Some("Текущее usage: символы: 1/2, документы: 3/4.".to_string())
    );
    assert_eq!(usage_hint_text(None, Some(2), None, None), None);
    assert_eq!(deepl_base_url(true), "https://api-free.deepl.com");
    assert_eq!(deepl_base_url(false), "https://api.deepl.com");
}

#[test]
fn alternatives_are_sorted_and_unique() {
    let items = strings(&["  b ", "a", "same", "", "a", "c"]);
    assert_eq!(collect_alternatives(&items, " same "), strings(&["  b ", "a", "c"]));
    assert!(is_alternative_candidate("x", "y"));
    assert!(!is_alternative_candidate(" y ", "y"));
    assert!(lex_less(&chars_of("ab"), &chars_of("b")));
    assert!(lex_less(&chars_of("a"), &chars_of("ab")));
    assert!(!lex_less(&chars_of("b"), &chars_of("b")));
    let variants = rephrase_variants();
    assert_eq!(variants.len(), 12);
    assert_eq!(variants[0], (None, None));
    assert_eq!(variants[4], (Some("simple".to_string()), Some("friendly".to_string())));
    assert_eq!(variants[11], (Some("business".to_string()), Some("confident".to_string())));
}

#[test]
fn words_and_ranges() {
    assert_eq!(word_span_at_char("hello world", 7), Some((6, 11)));
    assert_eq!(word_span_at_char("hello world", 5), Some((0, 5)));
    assert_eq!(word_span_at_char("hello world", 99), Some((6, 11)));
    assert_eq!(word_span_at_char("a  b", 2), None);
    assert_eq!(word_span_at_char("", 0), None);
    assert!(is_word_char('_'));
    assert!(is_word_char('ж'));
    assert!(!is_word_char('-'));
    assert_eq!(substring_by_char_range("привет мир", 7, 10), Some("мир".to_string()));
    assert_eq!(substring_by_char_range("abc", 2, 2), None);
    assert_eq!(substring_by_char_range("abc", 1, 99), Some("bc".to_string()));
    assert_eq!(replace_char_range("привет мир", 7, 10, "свет"), Some("привет свет".to_string()));
    assert_eq!(replace_char_range("abc", 2, 1, "x"), None);
    assert_eq!(replace_char_range("abc", 5, 9, "x"), Some("abcx".to_string()));
    assert_eq!(char_to_byte_index("привет", 2), 4);
    assert_eq!(char_to_byte_index("abc", 10), 3);
}

#[test]
fn builds_context_from_neighbours() {
    let lines = vec![line(" one ", None), line("two", None), line("  ", None), line("four\nfive", None)];
    assert_eq!(build_translation_context_from_lines(&lines, 1, 2), Some("one four five".to_string()));
    assert_eq!(build_translation_context_from_lines(&lines, 0, 0), None);
    assert_eq!(build_translation_context_from_lines(&lines, 9, 2), None);
    assert_eq!(build_translation_context_from_lines(&lines, 3, usize::MAX), Some("one two".to_string()));
}

#[test]
fn matches_languages_and_glossaries() {
    assert!(language_matches(" en-gb ", "EN"));
    assert!(language_matches("pt-BR", "pt-PT"));
    assert!(!language_matches("de", "en"));
    let metas = vec![
        GlossaryMeta {
            glossary_id: "g1".to_string(),
            name: "Other".to_string(),
            dictionaries: vec![GlossaryDictionaryMeta { source_lang: "en".to_string(), target_lang: "ru".to_string() }],
        },
        GlossaryMeta {
            glossary_id: "g2".to_string(),
            name: "subtitle glossary".to_string(),
            dictionaries: vec![GlossaryDictionaryMeta { source_lang: "EN".to_string(), target_lang: "RU".to_string() }],
        },
    ];
    assert!(glossary_has_pair(&metas[0], "EN", "RU"));
    assert!(!glossary_has_pair(&metas[0], "DE", "RU"));
    assert_eq!(find_glossary_id(&metas, "Subtitle Glossary", "EN", "RU"), Some("g2".to_string()));
    assert_eq!(find_glossary_id(&metas, "Nope", "EN", "RU"), Some("g1".to_string()));
    assert_eq!(find_glossary_id(&metas, "Nope", "DE", "RU"), None);
}

#[test]
fn splits_file_lines() {
    let v: Vec<String> = split_lines(&chars_of("a\r\nb\n\nc\r")).iter().map(|l| l.iter().collect()).collect();
    assert_eq!(v, strings(&["a", "b", "", "c\r"]));
}

fn translating_editor() -> Editor {
    let mut editor = Editor::new();
    editor.load_primary_project(project(vec![line("one", Some((0, 1))), line("two", None), line("three", None)], None));
    editor.deepl_state.api_key = " key ".to_string();
    editor.deepl_state.source_lang = "en".to_string();
    editor
}

#[test]
fn translation_settings_errors() {
    let mut editor = translating_editor();
    assert_eq!(editor.plan_focused_translation().err(), Some("Choose the line for translation".to_string()));
    editor.active_focus = Some(LineWidgetFocus { pane: PaneSide::Primary, index: 1, char_index: 0, selection_range: None });
    editor.deepl_state.target_lang = "  ".to_string();
    assert_eq!(editor.plan_focused_translation().err(), Some("Set target language (for example, RU, EN, DE)".to_string()));
    editor.deepl_state.target_lang = "ru".to_string();
    editor.deepl_state.api_key = "".to_string();
    assert_eq!(editor.plan_focused_translation().err(), Some("Set DeepL API key".to_string()));
    assert_eq!(default_translation_context_radius(), 2);
    assert_eq!(default_translation_batch_size(), 20);
}

#[test]
fn focused_line_translation_in_place() {
    let mut editor = translating_editor();
    editor.active_focus = Some(LineWidgetFocus { pane: PaneSide::Primary, index: 1, char_index: 0, selection_range: None });
    let job = editor.plan_focused_translation().unwrap();
    assert_eq!(job.kind, TranslationKind::FocusedLine);
    assert_eq!(job.target, TranslationTarget::Pane(PaneSide::Primary));
    assert_eq!(job.requests.len(), 1);
    assert_eq!(job.requests[0].text, "two");
    assert_eq!(job.requests[0].context, Some("one three".to_string()));
    assert_eq!(job.settings.api_key, "key");
    assert_eq!(job.settings.target_lang, "RU");
    assert_eq!(job.settings.source_lang, Some("EN".to_string()));
    assert_eq!(editor.apply_translation(&job, vec![None]), Err("DeepL вернул пустой ответ".to_string()));
    editor.apply_translation(&job, vec![Some("два".to_string())]).unwrap();
    assert_eq!(editor.project.lines[1].text, "два");
}

#[test]
fn batch_translation_into_translation_project() {
    let mut editor = translating_editor();
    editor.deepl_state.translation_mode = true;
    editor.active_focus = Some(LineWidgetFocus { pane: PaneSide::Secondary, index: 1, char_index: 0, selection_range: None });
    let job = editor.plan_batch_translation(5).unwrap();
    assert_eq!(job.target, TranslationTarget::TranslationProject);
    assert_eq!(job.start, 1);
    assert_eq!(job.requests.len(), 2);
    editor.apply_translation(&job, vec![Some("два".to_string()), None]).unwrap();
    let secondary = editor.secondary_project.as_ref().unwrap();
    assert_eq!(secondary.lines.len(), 3);
    assert_eq!(secondary.lines[0].text, "");
    assert_eq!(secondary.lines[1].text, "два");
    assert_eq!(secondary.lines[2].text, "");
    assert_eq!(editor.project.lines[1].text, "two");
    editor.active_focus = Some(LineWidgetFocus { pane: PaneSide::Primary, index: 7, char_index: 0, selection_range: None });
    assert_eq!(editor.plan_batch_translation(1).err(), Some("Focused line is out of range".to_string()));
}

#[test]
fn whole_file_translation() {
    let mut editor = translating_editor();
    let job = editor.plan_file_translation().unwrap().unwrap();
    assert_eq!(job.kind, TranslationKind::WholeFile);
    assert_eq!(job.requests.len(), 3);
    editor.apply_translation(&job, vec![Some("1".to_string()), Some("2".to_string()), Some("3".to_string())]).unwrap();
    assert_eq!(editor.project.lines[2].text, "3");
    editor.active_focus = Some(LineWidgetFocus { pane: PaneSide::Secondary, index: 0, char_index: 0, selection_range: None });
    assert_eq!(editor.plan_file_translation().err(), Some("Выбранная панель недоступна".to_string()));
    let mut empty = Editor::new();
    empty.deepl_state.api_key = "k".to_string();
    assert!(empty.plan_file_translation().unwrap().is_none());
}

#[test]
fn alternatives_flow() {
    let mut editor = translating_editor();
    editor.active_focus = Some(LineWidgetFocus { pane: PaneSide::Primary, index: 2, char_index: 2, selection_range: None });
    let request = editor.plan_alternatives().unwrap();
    assert_eq!((request.start, request.end), (0, 5));
    assert_eq!(request.selected_text, "three");
    assert_eq!(editor.open_alternatives(request, vec![]), Err("DeepL не вернул альтернативы".to_string()));
    let request = editor.plan_alternatives().unwrap();
    editor.open_alternatives(request, strings(&["3"])).unwrap();
    assert_eq!(editor.deepl_state.alternatives.as_ref().unwrap().query, "three");
    let (query, _) = editor.plan_refresh_alternatives().unwrap();
    assert_eq!(query, "three");
    editor.set_alternative_items(strings(&["THREE"])).unwrap();
    editor.apply_alternative_text("3").unwrap();
    assert_eq!(editor.project.lines[2].text, "3");
}

#[test]
fn glossary_flow() {
    let mut editor = translating_editor();
    editor.deepl_state.glossary_entries = vec![GlossaryEntry { source: "cat".to_string(), target: "кот".to_string() }];
    let sync = editor.plan_glossary_sync().unwrap();
    assert_eq!(sync.entries_tsv, "cat\tкот");
    assert_eq!(sync.source_lang, "EN");
    assert_eq!(sync.glossary_id, None);
    editor.set_glossary_id("g9".to_string());
    let load = editor.plan_glossary_load().unwrap();
    assert_eq!(load.glossary_id, Some("g9".to_string()));
    editor.install_glossary("g9".to_string(), vec![("a".to_string(), "b".to_string())]);
    assert_eq!(editor.deepl_state.glossary_entries.len(), 1);
    editor.add_glossary_entry();
    assert_eq!(editor.deepl_state.glossary_entries.len(), 2);
    editor.remove_glossary_entry(0);
    editor.remove_glossary_entry(9);
    assert_eq!(editor.deepl_state.glossary_entries.len(), 1);
    editor.deepl_state.source_lang = "".to_string();
    assert_eq!(editor.plan_glossary_sync().err(), Some("Для глоссария укажите SRC language".to_string()));
}

#[test]
fn sbv_export_reads_back() {
    let p = project(
        vec![
            line("Hello\nthere", Some((1_000, 2_500))),
            line("", Some((3_000, 4_000))),
            line("Bye", Some((3_723_004, 3_723_999))),
        ],
        None,
    );
    let written = export_sbv(&p);
    assert_eq!(written.error, None);
    let raw: Vec<String> = written.contents.lines().map(|l| l.to_string()).collect();
    let back = import_sbv(&raw).unwrap();
    assert_eq!(back.len(), 3);
    for (a, b) in back.iter().zip(p.lines.iter()) {
        assert_eq!(a.text, b.text);
        assert_eq!(a.timecode, b.timecode);
    }
}

#[test]
fn sbv_export_keeps_whole_milliseconds() {
    let start = Duration::from_nanos_u128(1_500_000);
    let end = Duration::from_nanos_u128(2_000_999);
    let p = project(vec![SubtitleLine { text: "x".to_string(), timecode: Some(TimecodeRange { start, end }) }], None);
    let raw: Vec<String> = export_sbv(&p).contents.lines().map(|l| l.to_string()).collect();
    let back = import_sbv(&raw).unwrap();
    assert_eq!(back[0].timecode, Some(TimecodeRange { start: ms(1), end: ms(2) }));
}

#[test]
fn txt_export_reads_back() {
    let p = project(vec![line("one", None), line("two\nlines", Some((0, 10))), line("three", None)], None);
    let written = export_txt(&p);
    let raw: Vec<String> = written.lines().map(|l| l.to_string()).collect();
    let back = import_txt(&raw);
    assert_eq!(back.len(), 3);
    assert_eq!(back[0].text, "one");
    assert_eq!(back[1].text, "two\nlines");
    assert_eq!(back[1].timecode, None);
    assert_eq!(back[2].text, "three");
}

#[test]
fn language_matching_is_symmetric() {
    for (a, b) in [("EN", " en-us"), ("pt-BR", "PT"), ("de", "en"), ("zh-Hans", "ZH-hant")] {
        assert_eq!(language_matches(a, b), language_matches(b, a));
        assert!(language_matches(a, a));
    }
}

#[test]
fn replacing_a_range_with_its_own_text_changes_nothing() {
    let text = "привет, мир";
    for (start, end) in [(0, 6), (8, 11), (3, 99), (20, 30)] {
        let own = substring_by_char_range(text, start, end).unwrap();
        assert_eq!(replace_char_range(text, start, end, &own), Some(text.to_string()));
    }
}

#[test]
fn srt_range_lines_read_back() {
    let p = project(vec![line("a", Some((1_001, 62_500))), line("b", Some((3_600_000, 3_600_001)))], None);
    let written = export_srt(&p);
    assert_eq!(written.error, None);
    let lines: Vec<&str> = written.contents.lines().collect();
    assert_eq!(lines[1], "00:00:01,001 --> 00:01:02,500");
    assert_eq!(
        subtitle_editor::timecode::parse_srt_time_range(lines[1]),
        Some(TimecodeRange { start: ms(1_001), end: ms(62_500) })
    );
    assert_eq!(
        subtitle_editor::timecode::parse_srt_time_range(lines[5]),
        Some(TimecodeRange { start: ms(3_600_000), end: ms(3_600_001) })
    );
}

#[test]
fn glossary_sync_errors_and_success() {
    let mut editor = translating_editor();
    assert_eq!(
        editor.plan_glossary_sync().err(),
        Some("Добавьте хотя бы одну непустую запись в глоссарий".to_string())
    );
    editor.deepl_state.glossary_entries = vec![GlossaryEntry { source: " dog ".to_string(), target: "пёс".to_string() }];
    editor.deepl_state.target_lang = "  ".to_string();
    assert_eq!(
        editor.plan_glossary_sync().err(),
        Some("Set target language (for example, RU, EN, DE)".to_string())
    );
    editor.deepl_state.target_lang = "ru".to_string();
    editor.deepl_state.api_key = "   ".to_string();
    assert_eq!(editor.plan_glossary_sync().err(), Some("Set DeepL API key".to_string()));
    editor.deepl_state.api_key = "k".to_string();
    let sync = editor.plan_glossary_sync().unwrap();
    assert_eq!(sync.target_lang, "RU");
    assert_eq!(sync.entries_tsv, "dog\tпёс");
}

#[test]
fn alternative_keeps_other_pane() {
    let mut editor = translating_editor();
    editor.load_secondary_project(project(vec![line("right", None)], None));
    editor.active_focus = Some(LineWidgetFocus { pane: PaneSide::Primary, index: 0, char_index: 1, selection_range: None });
    let request = editor.plan_alternatives().unwrap();
    editor.open_alternatives(request, strings(&["uno"])).unwrap();
    editor.apply_alternative_text("uno").unwrap();
    assert_eq!(editor.project.lines[0].text, "uno");
    assert_eq!(editor.secondary_project.as_ref().unwrap().lines[0].text, "right");
}

#[test]
fn deepl_shortcut_priority() {
    assert_eq!(deepl_shortcut_from_keys(true, true, true), Some(DeepLShortcut::TranslateLines));
    assert_eq!(deepl_shortcut_from_keys(false, true, true), Some(DeepLShortcut::TranslateLine));
    assert_eq!(deepl_shortcut_from_keys(false, false, true), Some(DeepLShortcut::Alternatives));
    assert_eq!(deepl_shortcut_from_keys(false, false, false), None);
}
