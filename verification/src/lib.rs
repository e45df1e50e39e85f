//! Converts source-code files into standalone HTML fragments, delegating the
//! actual syntax highlighting to an external highlighter invoked by the
//! surrounding application.
//!
//! The library holds the verified core of the pipeline: language
//! classification, file selection, blank-line normalization, HTML escaping and
//! templating, rendering of the external highlighter's configuration document,
//! and the per-file conversion decisions. All file-system and process work is
//! left to the caller, which feeds plain values in and out.

pub mod config;
pub mod converter;
pub mod file_utils;
pub mod language;
pub mod template;
pub mod text;
pub mod torchlight;
