//! Core logic of a subtitle editor: timecodes, subtitle line editing,
//! import and export of subtitle formats, edit history and the
//! planning side of machine translation with DeepL.

pub mod deepl;
pub mod duration;
pub mod exporters;
pub mod editor;
pub mod history;
pub mod importers;
pub mod line_edit;
pub mod project;
pub mod round_trip;
pub mod text;
pub mod timecode;
pub mod translation;
