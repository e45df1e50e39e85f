//! Configuration values: the immutable per-run conversion configuration and
//! the shape of the external highlighter's configuration document.

use vstd::prelude::*;

verus! {

/// Immutable conversion configuration, created once at startup from
/// environment/CLI input and read-only thereafter.
#[derive(Debug, Clone)]
pub struct Config {
    pub torchlight_token: String,
    pub theme: String,
    pub line_numbers: bool,
    pub cache_dir: String,
    pub output_dir: String,
    pub remove_empty_lines: bool,
}

/// The external highlighter's configuration document: credential, cache path,
/// theme, host endpoint, options, and input/output globs.
pub struct TorchlightConfig {
    pub token: String,
    pub cache: String,
    pub theme: String,
    pub host: String,
    pub options: TorchlightOptions,
    pub highlight: TorchlightHighlight,
}

/// Styling options handed to the external highlighter.
pub struct TorchlightOptions {
    pub line_numbers: bool,
    pub diff_indicators: bool,
    pub diff_indicators_in_place_of_line_numbers: bool,
}

/// Input and output locations for one highlighting pass.
pub struct TorchlightHighlight {
    pub input: String,
    pub output: String,
    pub include_globs: Vec<String>,
    pub exclude_patterns: Vec<String>,
}

} // verus!
