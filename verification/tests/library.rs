use code_to_html::config::Config;
use code_to_html::converter::{CodeToHTMLConverter, ConversionOutcome};
use code_to_html::file_utils::{
    file_name_of, file_stem_of, is_excluded_directory, process_empty_lines, select_code_files,
};
use code_to_html::language::{get_language_from_extension, get_supported_extensions};
use code_to_html::template::{escape_html, TemplateManager};
use code_to_html::torchlight::TorchlightProcessor;

fn test_config() -> Config {
    Config {
        torchlight_token: "tok".to_string(),
        theme: "nord".to_string(),
        line_numbers: true,
        cache_dir: "cache".to_string(),
        output_dir: "output".to_string(),
        remove_empty_lines: true,
    }
}

#[test]
fn classify_uppercase_extension() {
    assert_eq!(get_language_from_extension("script.JS"), "javascript");
}

#[test]
fn classify_no_extension() {
    assert_eq!(get_language_from_extension("noext"), "text");
}

#[test]
fn classify_makefile() {
    assert_eq!(get_language_from_extension("Makefile"), "text");
}

#[test]
fn classify_common_languages() {
    assert_eq!(get_language_from_extension("app.py"), "python");
    assert_eq!(get_language_from_extension("main.rs"), "rust");
    assert_eq!(get_language_from_extension("x.cc"), "cpp");
    assert_eq!(get_language_from_extension("x.h"), "c");
    assert_eq!(get_language_from_extension("notes.md"), "markdown");
    assert_eq!(get_language_from_extension("run.ZSH"), "bash");
    assert_eq!(get_language_from_extension("dir/part.TsX"), "typescript");
}

#[test]
fn classify_unknown_extension() {
    assert_eq!(get_language_from_extension("archive.tgz"), "text");
}

#[test]
fn classify_hidden_file() {
    assert_eq!(get_language_from_extension(".gitignore"), "text");
}

#[test]
fn supported_extensions_fixed_set() {
    let exts = get_supported_extensions();
    assert_eq!(exts.len(), 48);
    assert_eq!(exts[0], "php");
    assert!(exts.contains(&"py"));
    assert!(exts.contains(&"txt"));
    assert!(!exts.contains(&"exe"));
}

#[test]
fn normalize_flag_off_keeps_text() {
    let text = "a\n\n\nb\n";
    assert_eq!(process_empty_lines(text, false), text);
}

#[test]
fn normalize_removes_internal_blank_lines() {
    assert_eq!(process_empty_lines("print(1)\n\n\nprint(2)\n", true), "print(1)\nprint(2)");
}

#[test]
fn normalize_strips_whitespace_only_lines() {
    assert_eq!(process_empty_lines("a\n   \n\t\nb\n \n", true), "a\nb");
}

#[test]
fn normalize_windows_line_endings() {
    assert_eq!(process_empty_lines("a\r\n\r\nb\r\n", true), "a\nb");
}

#[test]
fn normalize_all_blank_yields_empty() {
    assert_eq!(process_empty_lines("\n \n\t\r\n\n", true), "");
    assert_eq!(process_empty_lines("", true), "");
}

#[test]
fn normalize_treats_unicode_whitespace_as_blank() {
    assert_eq!(process_empty_lines("\u{a0}\n", true), "");
    assert_eq!(process_empty_lines("\u{2028}\n\u{3000}\u{a0}\nx\n", true), "x");
}

#[test]
fn normalize_strips_one_carriage_return_per_crlf_ending() {
    assert_eq!(process_empty_lines("a\r\r\n", true), "a\r");
    assert_eq!(process_empty_lines("line\r", true), "line\r");
}

#[test]
fn normalize_is_idempotent_on_samples() {
    for text in ["a\n\nb", "\n\n", "x\r\n\r\ny\n\n", "one\ntwo\n", "  \n mid \n  \n", "\u{a0}\na\r"] {
        let once = process_empty_lines(text, true);
        let twice = process_empty_lines(&once, true);
        assert_eq!(twice, once);
    }
}

#[test]
fn escape_ampersand_first_never_double_escapes() {
    assert_eq!(escape_html("&lt;"), "&amp;lt;");
}

#[test]
fn escape_all_five_reserved_characters() {
    assert_eq!(escape_html("<a href=\"x\">'&'</a>"), "&lt;a href=&quot;x&quot;&gt;&#039;&amp;&#039;&lt;/a&gt;");
}

#[test]
fn escape_leaves_no_reserved_character_unescaped() {
    let out = escape_html("if a < b && c > \"d\" { '&' }");
    assert!(!out.contains('<'));
    assert!(!out.contains('>'));
    assert!(!out.contains('"'));
    assert!(!out.contains('\''));
    for (i, c) in out.char_indices() {
        if c == '&' {
            let rest = &out[i..];
            assert!(
                rest.starts_with("&amp;")
                    || rest.starts_with("&lt;")
                    || rest.starts_with("&gt;")
                    || rest.starts_with("&quot;")
                    || rest.starts_with("&#039;")
            );
        }
    }
}

#[test]
fn render_substitutes_all_placeholders() {
    let out = TemplateManager::render_code_block(
        "<div class=\"{theme}\" data-file=\"{filename}\" data-lang=\"{language}\"><pre>{code}</pre></div>",
        "a.py",
        "python",
        "nord",
        "print(1)",
    );
    assert_eq!(
        out,
        "<div class=\"nord\" data-file=\"a.py\" data-lang=\"python\"><pre>print(1)</pre></div>"
    );
}

#[test]
fn render_missing_placeholder_drops_value() {
    let out = TemplateManager::render_code_block("<pre>{code}</pre>", "a.py", "python", "nord", "x");
    assert_eq!(out, "<pre>x</pre>");
}

#[test]
fn render_does_not_reescape_substituted_code() {
    let out = TemplateManager::render_code_block("{code}", "f", "l", "t", "&amp;");
    assert_eq!(out, "&amp;");
}

#[test]
fn excluded_directories_pruned_at_any_depth() {
    assert!(is_excluded_directory("src/vendor/x.js"));
    assert!(is_excluded_directory("a/b/node_modules/c/d.py"));
    assert!(is_excluded_directory(".git/config.rb"));
    assert!(is_excluded_directory("deep/target/debug/main.rs"));
    assert!(!is_excluded_directory("a/b/c.py"));
    assert!(!is_excluded_directory("foo/targets/x.rs"));
    assert!(!is_excluded_directory("vendored/x.rs"));
}

#[test]
fn select_keeps_exactly_supported_files_outside_excluded_dirs() {
    let paths: Vec<String> = vec![
        "a.py".to_string(),
        "b.txt".to_string(),
        "vendor/c.js".to_string(),
        "Foo.PY".to_string(),
        "image.png".to_string(),
        "noext".to_string(),
        "src/node_modules/d.ts".to_string(),
        "src/ok.rs".to_string(),
    ];
    let selected = select_code_files(&paths);
    assert_eq!(selected, vec!["a.py", "b.txt", "Foo.PY", "src/ok.rs"]);
}

#[test]
fn file_names_and_stems() {
    assert_eq!(file_name_of("x/y/z.rs"), "z.rs");
    assert_eq!(file_name_of("plain.py"), "plain.py");
    assert_eq!(file_stem_of("dir/a.py"), "a");
    assert_eq!(file_stem_of("noext"), "noext");
    assert_eq!(file_stem_of("a.tar.gz"), "a.tar");
}

#[test]
fn scaffold_and_output_naming() {
    assert_eq!(CodeToHTMLConverter::scaffold_file_name("a"), "a.html");
    let conv = CodeToHTMLConverter::new(test_config(), "{code}".to_string());
    assert_eq!(conv.output_file_path("a"), "output/a.html");
}

#[test]
fn scaffold_contains_normalized_escaped_code() {
    let conv = CodeToHTMLConverter::new(
        test_config(),
        "<pre data-lang=\"{language}\">{code}</pre>".to_string(),
    );
    let processed = process_empty_lines("print(1)\n\n\nprint(2)\n", true);
    let scaffold = conv.create_code_block_html("a.py", &processed);
    assert_eq!(scaffold, "<pre data-lang=\"python\">print(1)\nprint(2)</pre>");
    assert!(scaffold.contains("print(1)\nprint(2)"));
}

#[test]
fn directory_scenario_prunes_vendor_and_keeps_supported() {
    let paths: Vec<String> =
        vec!["a.py".to_string(), "b.txt".to_string(), "vendor/c.js".to_string()];
    let selected = select_code_files(&paths);
    assert_eq!(selected, vec!["a.py", "b.txt"]);
    let conv = CodeToHTMLConverter::new(test_config(), "{code}".to_string());
    let scaffold =
        conv.create_code_block_html("a.py", &process_empty_lines("print(1)\n\n\nprint(2)\n", true));
    assert_eq!(scaffold, "print(1)\nprint(2)");
}

#[test]
fn failed_highlighting_yields_no_result_for_every_input() {
    let conv = CodeToHTMLConverter::new(test_config(), "{code}".to_string());
    for stem in ["a", "b", "weird name", ""] {
        let outcome = conv.conversion_outcome(stem, false);
        assert!(matches!(outcome, ConversionOutcome::NoResult));
    }
    let outcomes = vec![ConversionOutcome::NoResult, ConversionOutcome::NoResult];
    let produced = CodeToHTMLConverter::collect_outputs(&outcomes);
    assert!(produced.is_empty());
}

#[test]
fn successful_highlighting_yields_output_path() {
    let conv = CodeToHTMLConverter::new(test_config(), "{code}".to_string());
    let outcome = conv.conversion_outcome("a", true);
    match outcome {
        ConversionOutcome::Produced(p) => assert_eq!(p, "output/a.html"),
        ConversionOutcome::NoResult => panic!("expected an output path"),
    }
}

#[test]
fn collect_outputs_keeps_later_results_after_a_failure() {
    let outcomes = vec![
        ConversionOutcome::Produced("output/a.html".to_string()),
        ConversionOutcome::NoResult,
        ConversionOutcome::Produced("output/c.html".to_string()),
    ];
    let produced = CodeToHTMLConverter::collect_outputs(&outcomes);
    assert_eq!(produced, vec!["output/a.html", "output/c.html"]);
}

#[test]
fn torchlight_config_fields() {
    let tc = TorchlightProcessor::build_config(&test_config(), "/tmp/scratch");
    assert_eq!(tc.token, "tok");
    assert_eq!(tc.cache, "cache");
    assert_eq!(tc.theme, "nord");
    assert_eq!(tc.host, "https://api.torchlight.dev");
    assert!(tc.options.line_numbers);
    assert!(tc.options.diff_indicators);
    assert!(tc.options.diff_indicators_in_place_of_line_numbers);
    assert_eq!(tc.highlight.input, "/tmp/scratch");
    assert_eq!(tc.highlight.output, "/tmp/scratch");
    assert_eq!(tc.highlight.include_globs, vec!["**/*.html"]);
    assert_eq!(tc.highlight.exclude_patterns, vec!["/node_modules/", "/vendor/"]);
}

#[test]
fn torchlight_document_is_the_expected_module_assignment() {
    let tc = TorchlightProcessor::build_config(&test_config(), "/tmp/s");
    let doc = TorchlightProcessor::render_config(&tc);
    let expected = "module.exports = {\"token\": \"tok\", \"cache\": \"cache\", \"theme\": \"nord\", \"host\": \"https://api.torchlight.dev\", \"options\": {\"lineNumbers\": true, \"diffIndicators\": true, \"diffIndicatorsInPlaceOfLineNumbers\": true}, \"highlight\": {\"input\": \"/tmp/s\", \"output\": \"/tmp/s\", \"includeGlobs\": [\"**/*.html\"], \"excludePatterns\": [\"/node_modules/\",\"/vendor/\"]}};";
    assert_eq!(doc, expected);
}

#[test]
fn torchlight_document_escapes_string_values() {
    let mut config = test_config();
    config.torchlight_token = "a\"b\\c\nd".to_string();
    let tc = TorchlightProcessor::build_config(&config, "/tmp/s");
    let doc = TorchlightProcessor::render_config(&tc);
    assert!(doc.contains("\"token\": \"a\\\"b\\\\c\\nd\""));
}

#[test]
fn torchlight_document_escapes_control_characters() {
    let mut config = test_config();
    config.torchlight_token = "x\u{8}y\u{c}z\u{1}w\u{1f}".to_string();
    let tc = TorchlightProcessor::build_config(&config, "/tmp/s");
    let doc = TorchlightProcessor::render_config(&tc);
    assert!(doc.contains("\"token\": \"x\\by\\fz\\u0001w\\u001f\""));
}
