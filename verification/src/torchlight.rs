//! The highlighting delegate's verified half: builds the external
//! highlighter's configuration and renders it as the document the tool
//! expects (a module assignment holding one JSON object). The surrounding
//! application persists the document at the tool's fixed well-known path,
//! invokes the tool, and removes the document afterwards.

use vstd::prelude::*;

use crate::config::{Config, TorchlightConfig, TorchlightHighlight, TorchlightOptions};
use crate::text::{chars_of, join_with, push_all, string_of};

verus! {

/// One hexadecimal digit, lower case.
pub open spec fn hex_digit(d: u32) -> char {
    if d == 0 {
        '0'
    } else if d == 1 {
        '1'
    } else if d == 2 {
        '2'
    } else if d == 3 {
        '3'
    } else if d == 4 {
        '4'
    } else if d == 5 {
        '5'
    } else if d == 6 {
        '6'
    } else if d == 7 {
        '7'
    } else if d == 8 {
        '8'
    } else if d == 9 {
        '9'
    } else if d == 10 {
        'a'
    } else if d == 11 {
        'b'
    } else if d == 12 {
        'c'
    } else if d == 13 {
        'd'
    } else if d == 14 {
        'e'
    } else {
        'f'
    }
}

/// The escape of one character inside a JSON string literal: backslash and
/// quote, the named control escapes, and every other control character below
/// U+0020 as `\u00XX`, so the document is always valid JSON.
pub open spec fn json_escaped_char(c: char) -> Seq<char> {
    if c == '\\' {
        seq!['\\', '\\']
    } else if c == '"' {
        seq!['\\', '"']
    } else if c == '\u{8}' {
        seq!['\\', 'b']
    } else if c == '\u{c}' {
        seq!['\\', 'f']
    } else if c == '\n' {
        seq!['\\', 'n']
    } else if c == '\r' {
        seq!['\\', 'r']
    } else if c == '\t' {
        seq!['\\', 't']
    } else if (c as u32) < 32 {
        seq!['\\', 'u', '0', '0', hex_digit((c as u32) / 16), hex_digit((c as u32) % 16)]
    } else {
        seq![c]
    }
}

/// The body of a JSON string literal holding `s`.
pub open spec fn json_escaped(s: Seq<char>) -> Seq<char>
    decreases s.len(),
{
    if s.len() == 0 {
        Seq::<char>::empty()
    } else {
        json_escaped_char(s[0]) + json_escaped(s.skip(1))
    }
}

/// A JSON string literal holding `s`.
pub open spec fn json_string(s: Seq<char>) -> Seq<char> {
    seq!['"'] + json_escaped(s) + seq!['"']
}

/// A JSON boolean literal.
pub open spec fn json_bool(b: bool) -> Seq<char> {
    if b {
        "true"@
    } else {
        "false"@
    }
}

/// Each element as a JSON string literal.
pub open spec fn json_strings_of(elems: Seq<Seq<char>>) -> Seq<Seq<char>> {
    elems.map_values(|e: Seq<char>| json_string(e))
}

/// A JSON array of string literals.
pub open spec fn json_string_array(elems: Seq<Seq<char>>) -> Seq<char> {
    seq!['['] + join_with(json_strings_of(elems), ',') + seq![']']
}

/// The full configuration document for the external highlighter.
pub open spec fn config_document(tc: TorchlightConfig) -> Seq<char> {
    "module.exports = {\"token\": "@ + json_string(tc.token@) + ", \"cache\": "@ + json_string(
        tc.cache@,
    ) + ", \"theme\": "@ + json_string(tc.theme@) + ", \"host\": "@ + json_string(tc.host@)
        + ", \"options\": {\"lineNumbers\": "@ + json_bool(tc.options.line_numbers)
        + ", \"diffIndicators\": "@ + json_bool(tc.options.diff_indicators)
        + ", \"diffIndicatorsInPlaceOfLineNumbers\": "@ + json_bool(
        tc.options.diff_indicators_in_place_of_line_numbers,
    ) + "}, \"highlight\": {\"input\": "@ + json_string(tc.highlight.input@) + ", \"output\": "@
        + json_string(tc.highlight.output@) + ", \"includeGlobs\": "@ + json_string_array(
        tc.highlight.include_globs.deep_view(),
    ) + ", \"excludePatterns\": "@ + json_string_array(tc.highlight.exclude_patterns.deep_view())
        + "}};"@
}

/// One hexadecimal digit, lower case.
fn hex_digit_char(d: u32) -> (r: char)
    ensures
        r == hex_digit(d),
{
    if d == 0 {
        '0'
    } else if d == 1 {
        '1'
    } else if d == 2 {
        '2'
    } else if d == 3 {
        '3'
    } else if d == 4 {
        '4'
    } else if d == 5 {
        '5'
    } else if d == 6 {
        '6'
    } else if d == 7 {
        '7'
    } else if d == 8 {
        '8'
    } else if d == 9 {
        '9'
    } else if d == 10 {
        'a'
    } else if d == 11 {
        'b'
    } else if d == 12 {
        'c'
    } else if d == 13 {
        'd'
    } else if d == 14 {
        'e'
    } else {
        'f'
    }
}

/// The characters of the JSON string literal holding `s`.
fn json_string_chars(s: &str) -> (r: Vec<char>)
    ensures
        r@ == json_string(s@),
{
    let chars = chars_of(s);
    let mut out: Vec<char> = Vec::new();
    out.push('"');
    let mut i: usize = 0;
    proof {
        assert(s@.skip(0) =~= s@);
        assert(out@ + json_escaped(s@.skip(0)) =~= seq!['"'] + json_escaped(s@));
    }
    while i < chars.len()
        invariant
            i <= chars.len(),
            chars@ == s@,
            out@ + json_escaped(s@.skip(i as int)) == seq!['"'] + json_escaped(s@),
        decreases chars.len() - i,
    {
        let ghost t = s@.skip(i as int);
        proof {
            assert(t[0] == s@[i as int]);
            assert(t.skip(1) =~= s@.skip(i + 1));
        }
        let ghost before = out@;
        let c = chars[i];
        if c == '\\' {
            out.push('\\');
            out.push('\\');
        } else if c == '"' {
            out.push('\\');
            out.push('"');
        } else if c == '\u{8}' {
            out.push('\\');
            out.push('b');
        } else if c == '\u{c}' {
            out.push('\\');
            out.push('f');
        } else if c == '\n' {
            out.push('\\');
            out.push('n');
        } else if c == '\r' {
            out.push('\\');
            out.push('r');
        } else if c == '\t' {
            out.push('\\');
            out.push('t');
        } else if (c as u32) < 32 {
            out.push('\\');
            out.push('u');
            out.push('0');
            out.push('0');
            out.push(hex_digit_char((c as u32) / 16));
            out.push(hex_digit_char((c as u32) % 16));
        } else {
            out.push(c);
        }
        proof {
            assert(out@ =~= before + json_escaped_char(s@[i as int]));
            assert(out@ + json_escaped(s@.skip(i + 1)) =~= seq!['"'] + json_escaped(s@));
        }
        i += 1;
    }
    proof {
        assert(s@.skip(chars.len() as int) =~= Seq::<char>::empty());
        assert(out@ =~= seq!['"'] + json_escaped(s@));
    }
    out.push('"');
    proof {
        assert(out@ =~= json_string(s@));
    }
    out
}

/// The characters of a JSON array of string literals.
fn json_array_chars(elems: &Vec<String>) -> (r: Vec<char>)
    ensures
        r@ == json_string_array(elems.deep_view()),
{
    let ghost es = json_strings_of(elems.deep_view());
    let mut out: Vec<char> = Vec::new();
    out.push('[');
    let mut i: usize = 0;
    proof {
        assert(es.take(0) =~~= Seq::<Seq<char>>::empty());
        assert(out@ =~= seq!['['] + join_with(es.take(0), ','));
    }
    while i < elems.len()
        invariant
            i <= elems.len(),
            es == json_strings_of(elems.deep_view()),
            es.len() == elems@.len(),
            out@ == seq!['['] + join_with(es.take(i as int), ','),
        decreases elems.len() - i,
    {
        if i > 0 {
            out.push(',');
        }
        let js = json_string_chars(elems[i].as_str());
        push_all(&mut out, &js);
        proof {
            crate::text::lemma_join_with_push(es.take(i as int), es[i as int], ',');
            assert(es.take(i + 1) =~~= es.take(i as int).push(es[i as int]));
            assert(elems.deep_view()[i as int] =~= elems@[i as int]@);
            assert(es[i as int] == json_string(elems@[i as int]@));
            assert(out@ =~= seq!['['] + join_with(es.take(i + 1), ','));
        }
        i += 1;
    }
    proof {
        assert(es.take(elems.len() as int) =~~= es);
    }
    out.push(']');
    proof {
        assert(out@ =~= json_string_array(elems.deep_view()));
    }
    out
}

/// Builds and renders the external highlighter's configuration for one
/// conversion.
pub struct TorchlightProcessor;

impl TorchlightProcessor {
    /// The configuration for one highlighting pass: the run's credential,
    /// cache and theme, the tool's host endpoint, and input/output globs
    /// pointing at the scratch directory, with vendor/dependency subpaths
    /// excluded.
    pub fn build_config(config: &Config, temp_dir: &str) -> (r: TorchlightConfig)
        ensures
            r.token@ == config.torchlight_token@,
            r.cache@ == config.cache_dir@,
            r.theme@ == config.theme@,
            r.host@ == "https://api.torchlight.dev"@,
            r.options.line_numbers == config.line_numbers,
            r.options.diff_indicators,
            r.options.diff_indicators_in_place_of_line_numbers,
            r.highlight.input@ == temp_dir@,
            r.highlight.output@ == temp_dir@,
            r.highlight.include_globs.deep_view() == seq!["**/*.html"@],
            r.highlight.exclude_patterns.deep_view() == seq!["/node_modules/"@, "/vendor/"@],
    {
        let include_globs: Vec<String> = vec!["**/*.html".to_owned()];
        let exclude_patterns: Vec<String> = vec![
            "/node_modules/".to_owned(),
            "/vendor/".to_owned(),
        ];
        proof {
            assert(include_globs.deep_view() =~~= seq!["**/*.html"@]);
            assert(exclude_patterns.deep_view() =~~= seq!["/node_modules/"@, "/vendor/"@]);
        }
        TorchlightConfig {
            token: config.torchlight_token.clone(),
            cache: config.cache_dir.clone(),
            theme: config.theme.clone(),
            host: "https://api.torchlight.dev".to_owned(),
            options: TorchlightOptions {
                line_numbers: config.line_numbers,
                diff_indicators: true,
                diff_indicators_in_place_of_line_numbers: true,
            },
            highlight: TorchlightHighlight {
                input: temp_dir.to_owned(),
                output: temp_dir.to_owned(),
                include_globs,
                exclude_patterns,
            },
        }
    }

    /// Renders the configuration document in the external tool's expected
    /// syntax: a module assignment holding one JSON object, literally
    /// assignable by that tool.
    pub fn render_config(tc: &TorchlightConfig) -> (r: String)
        ensures
            r@ == config_document(*tc),
    {
        let mut out: Vec<char> = Vec::new();
        push_all(&mut out, &chars_of("module.exports = {\"token\": "));
        push_all(&mut out, &json_string_chars(tc.token.as_str()));
        push_all(&mut out, &chars_of(", \"cache\": "));
        push_all(&mut out, &json_string_chars(tc.cache.as_str()));
        push_all(&mut out, &chars_of(", \"theme\": "));
        push_all(&mut out, &json_string_chars(tc.theme.as_str()));
        push_all(&mut out, &chars_of(", \"host\": "));
        push_all(&mut out, &json_string_chars(tc.host.as_str()));
        push_all(&mut out, &chars_of(", \"options\": {\"lineNumbers\": "));
        push_all(&mut out, &chars_of(if tc.options.line_numbers { "true" } else { "false" }));
        push_all(&mut out, &chars_of(", \"diffIndicators\": "));
        push_all(&mut out, &chars_of(if tc.options.diff_indicators { "true" } else { "false" }));
        push_all(&mut out, &chars_of(", \"diffIndicatorsInPlaceOfLineNumbers\": "));
        push_all(
            &mut out,
            &chars_of(
                if tc.options.diff_indicators_in_place_of_line_numbers { "true" } else { "false" },
            ),
        );
        push_all(&mut out, &chars_of("}, \"highlight\": {\"input\": "));
        push_all(&mut out, &json_string_chars(tc.highlight.input.as_str()));
        push_all(&mut out, &chars_of(", \"output\": "));
        push_all(&mut out, &json_string_chars(tc.highlight.output.as_str()));
        push_all(&mut out, &chars_of(", \"includeGlobs\": "));
        push_all(&mut out, &json_array_chars(&tc.highlight.include_globs));
        push_all(&mut out, &chars_of(", \"excludePatterns\": "));
        push_all(&mut out, &json_array_chars(&tc.highlight.exclude_patterns));
        push_all(&mut out, &chars_of("}};"));
        proof {
            assert(out@ =~= config_document(*tc));
        }
        string_of(&out)
    }
}

} // verus!
