# subtitle_editor

A subtitle editor: plain-text, SBV and SRT subtitles and `.seproj` project
files, line splitting and merging, undo/redo, a side-by-side diff view, and
machine translation, rephrasing and glossaries through the DeepL API.

The logic is a library verified with Verus:

- `src/timecode.rs`, `src/duration.rs` – timecode notation, durations, splitting a time range.
- `src/text.rs` – the text primitives the rest is specified with (trimming, splitting, joining, UTF-8 offsets).
- `src/importers.rs`, `src/exporters.rs` – reading and writing subtitle files, export paths.
- `src/round_trip.rs` – what reading back a written file gives.
- `src/line_edit.rs`, `src/history.rs` – line editing, keyboard shortcuts, undo/redo.
- `src/translation.rs`, `src/deepl.rs` – translation context, word ranges, glossaries, DeepL requests and replies.
- `src/editor.rs` – the editor state and the commands that act on it.

`app/` is the desktop program around it (egui window, file dialogs, file
access, settings file, HTTP calls to DeepL); it plans and applies every
change through the library. `tests/` runs the library on concrete values.
