//! HTML escaping and template rendering: escapes code text and substitutes it,
//! along with filename/language/theme metadata, into a fixed HTML template.

use vstd::prelude::*;

use crate::text::{chars_of, replace_chars, replaced, string_of};

verus! {

/// The HTML entity that replaces a reserved character; every other character
/// stands for itself.
pub open spec fn entity_of(c: char) -> Seq<char> {
    if c == '&' {
        seq!['&', 'a', 'm', 'p', ';']
    } else if c == '<' {
        seq!['&', 'l', 't', ';']
    } else if c == '>' {
        seq!['&', 'g', 't', ';']
    } else if c == '"' {
        seq!['&', 'q', 'u', 'o', 't', ';']
    } else if c == '\'' {
        seq!['&', '#', '0', '3', '9', ';']
    } else {
        seq![c]
    }
}

/// The text with every reserved character replaced by its entity. Ampersands
/// are escaped first, so entities introduced by the later substitutions are
/// never escaped again.
pub open spec fn escaped_html(s: Seq<char>) -> Seq<char>
    decreases s.len(),
{
    if s.len() == 0 {
        Seq::<char>::empty()
    } else {
        entity_of(s[0]) + escaped_html(s.skip(1))
    }
}

/// Escapes the five HTML-reserved characters: `&` to `&amp;`, `<` to `&lt;`,
/// `>` to `&gt;`, `"` to `&quot;`, `'` to `&#039;`, ampersand first.
pub fn escape_html(text: &str) -> (r: String)
    ensures
        r@ == escaped_html(text@),
{
    let chars = chars_of(text);
    let mut out: Vec<char> = Vec::new();
    let mut i: usize = 0;
    proof {
        assert(text@.skip(0) =~= text@);
    }
    while i < chars.len()
        invariant
            i <= chars.len(),
            chars@ == text@,
            escaped_html(text@) == out@ + escaped_html(text@.skip(i as int)),
        decreases chars.len() - i,
    {
        let ghost t = text@.skip(i as int);
        proof {
            assert(t[0] == text@[i as int]);
            assert(t.skip(1) =~= text@.skip(i + 1));
        }
        let ghost before = out@;
        let c = chars[i];
        if c == '&' {
            out.push('&');
            out.push('a');
            out.push('m');
            out.push('p');
            out.push(';');
        } else if c == '<' {
            out.push('&');
            out.push('l');
            out.push('t');
            out.push(';');
        } else if c == '>' {
            out.push('&');
            out.push('g');
            out.push('t');
            out.push(';');
        } else if c == '"' {
            out.push('&');
            out.push('q');
            out.push('u');
            out.push('o');
            out.push('t');
            out.push(';');
        } else if c == '\'' {
            out.push('&');
            out.push('#');
            out.push('0');
            out.push('3');
            out.push('9');
            out.push(';');
        } else {
            out.push(c);
        }
        proof {
            assert(out@ =~= before + entity_of(text@[i as int]));
        }
        i += 1;
    }
    proof {
        assert(text@.skip(chars.len() as int) =~= Seq::<char>::empty());
    }
    string_of(&out)
}

/// Text in which the five reserved characters never appear unescaped: `<`,
/// `>`, `"` and `'` not at all, and `&` only where it opens one of the five
/// entities.
pub open spec fn is_fully_escaped(t: Seq<char>) -> bool
    decreases t.len(),
{
    if t.len() == 0 {
        true
    } else if t[0] == '<' || t[0] == '>' || t[0] == '"' || t[0] == '\'' {
        false
    } else if t[0] == '&' {
        if t.len() >= 5 && t.take(5) == seq!['&', 'a', 'm', 'p', ';'] {
            is_fully_escaped(t.skip(5))
        } else if t.len() >= 4 && t.take(4) == seq!['&', 'l', 't', ';'] {
            is_fully_escaped(t.skip(4))
        } else if t.len() >= 4 && t.take(4) == seq!['&', 'g', 't', ';'] {
            is_fully_escaped(t.skip(4))
        } else if t.len() >= 6 && t.take(6) == seq!['&', 'q', 'u', 'o', 't', ';'] {
            is_fully_escaped(t.skip(6))
        } else if t.len() >= 6 && t.take(6) == seq!['&', '#', '0', '3', '9', ';'] {
            is_fully_escaped(t.skip(6))
        } else {
            false
        }
    } else {
        is_fully_escaped(t.skip(1))
    }
}

/// Escaping round-trips safely: for any input, the escaped output never
/// contains a reserved character unescaped.
pub proof fn lemma_escaped_html_fully_escaped(s: Seq<char>)
    ensures
        is_fully_escaped(escaped_html(s)),
    decreases s.len(),
{
    if s.len() == 0 {
    } else {
        lemma_escaped_html_fully_escaped(s.skip(1));
        let rest = escaped_html(s.skip(1));
        let t = escaped_html(s);
        let c = s[0];
        if c == '&' {
            assert(t =~= seq!['&', 'a', 'm', 'p', ';'] + rest);
            assert(t.take(5) =~= seq!['&', 'a', 'm', 'p', ';']);
            assert(t.skip(5) =~= rest);
        } else if c == '<' {
            assert(t =~= seq!['&', 'l', 't', ';'] + rest);
            assert(t.take(4) =~= seq!['&', 'l', 't', ';']);
            assert(t.skip(4) =~= rest);
            if t.len() >= 5 && t.take(5) == seq!['&', 'a', 'm', 'p', ';'] {
                assert(t.take(5)[1] == 'l');
            }
        } else if c == '>' {
            assert(t =~= seq!['&', 'g', 't', ';'] + rest);
            assert(t.take(4) =~= seq!['&', 'g', 't', ';']);
            assert(t.skip(4) =~= rest);
            if t.len() >= 5 && t.take(5) == seq!['&', 'a', 'm', 'p', ';'] {
                assert(t.take(5)[1] == 'g');
            }
            if t.len() >= 4 && t.take(4) == seq!['&', 'l', 't', ';'] {
                assert(t.take(4)[1] == 'g');
            }
        } else if c == '"' {
            assert(t =~= seq!['&', 'q', 'u', 'o', 't', ';'] + rest);
            assert(t.take(6) =~= seq!['&', 'q', 'u', 'o', 't', ';']);
            assert(t.skip(6) =~= rest);
            if t.len() >= 5 && t.take(5) == seq!['&', 'a', 'm', 'p', ';'] {
                assert(t.take(5)[1] == 'q');
            }
            if t.len() >= 4 && t.take(4) == seq!['&', 'l', 't', ';'] {
                assert(t.take(4)[1] == 'q');
            }
            if t.len() >= 4 && t.take(4) == seq!['&', 'g', 't', ';'] {
                assert(t.take(4)[1] == 'q');
            }
        } else if c == '\'' {
            assert(t =~= seq!['&', '#', '0', '3', '9', ';'] + rest);
            assert(t.take(6) =~= seq!['&', '#', '0', '3', '9', ';']);
            assert(t.skip(6) =~= rest);
            if t.len() >= 5 && t.take(5) == seq!['&', 'a', 'm', 'p', ';'] {
                assert(t.take(5)[1] == '#');
            }
            if t.len() >= 4 && t.take(4) == seq!['&', 'l', 't', ';'] {
                assert(t.take(4)[1] == '#');
            }
            if t.len() >= 4 && t.take(4) == seq!['&', 'g', 't', ';'] {
                assert(t.take(4)[1] == '#');
            }
            if t.len() >= 6 && t.take(6) == seq!['&', 'q', 'u', 'o', 't', ';'] {
                assert(t.take(6)[1] == '#');
            }
        } else {
            assert(t =~= seq![c] + rest);
            assert(t.skip(1) =~= rest);
        }
    }
}

/// Replacing a one-character pattern in the empty text leaves it empty.
proof fn lemma_replace1_empty(p: char, rep: Seq<char>)
    ensures
        replaced(Seq::<char>::empty(), seq![p], rep) == Seq::<char>::empty(),
{
}

/// Replacing a one-character pattern in a one-character text.
proof fn lemma_replace1_single(c: char, p: char, rep: Seq<char>)
    ensures
        c == p ==> replaced(seq![c], seq![p], rep) == rep,
        c != p ==> replaced(seq![c], seq![p], rep) == seq![c],
{
    let s = seq![c];
    let pat = seq![p];
    assert(s.take(1) =~= seq![c]);
    assert(s.skip(1) =~= Seq::<char>::empty());
    assert(replaced(Seq::<char>::empty(), pat, rep) == Seq::<char>::empty());
    if c == p {
        assert(s.take(1) =~= pat);
        assert(replaced(s, pat, rep) =~= rep);
    } else {
        if s.take(1) == pat {
            assert(s.take(1)[0] == p);
        }
        assert(replaced(s, pat, rep) =~= seq![c]);
    }
}

/// A one-character pattern cannot straddle a boundary, so its replacement
/// distributes over concatenation.
proof fn lemma_replace1_concat(a: Seq<char>, b: Seq<char>, p: char, rep: Seq<char>)
    ensures
        replaced(a + b, seq![p], rep) == replaced(a, seq![p], rep) + replaced(b, seq![p], rep),
    decreases a.len(),
{
    let pat = seq![p];
    if a.len() == 0 {
        assert(a + b =~= b);
        assert(replaced(a, pat, rep) == a);
        assert(a + replaced(b, pat, rep) =~= replaced(b, pat, rep));
    } else {
        lemma_replace1_concat(a.skip(1), b, p, rep);
        let s = a + b;
        assert(s[0] == a[0]);
        assert(s.skip(1) =~= a.skip(1) + b);
        assert(s.take(1) =~= seq![s[0]]);
        assert(a.take(1) =~= seq![a[0]]);
        if a[0] == p {
            assert(s.take(1) =~= pat);
            assert(a.take(1) =~= pat);
            assert(replaced(s, pat, rep) =~= replaced(a, pat, rep) + replaced(b, pat, rep));
        } else {
            if s.take(1) == pat {
                assert(s.take(1)[0] == p);
            }
            if a.take(1) == pat {
                assert(a.take(1)[0] == p);
            }
            assert(replaced(s, pat, rep) =~= replaced(a, pat, rep) + replaced(b, pat, rep));
        }
    }
}

/// A text free of the pattern character is left unchanged.
proof fn lemma_replace1_absent(x: Seq<char>, p: char, rep: Seq<char>)
    requires
        forall|j: int| 0 <= j < x.len() ==> x[j] != p,
    ensures
        replaced(x, seq![p], rep) == x,
    decreases x.len(),
{
    let pat = seq![p];
    if x.len() == 0 {
    } else {
        assert(forall|j: int| 0 <= j < x.skip(1).len() ==> x.skip(1)[j] == x[j + 1]);
        lemma_replace1_absent(x.skip(1), p, rep);
        assert(x.take(1) =~= seq![x[0]]);
        if x.take(1) == pat {
            assert(x.take(1)[0] == p);
        }
        assert(replaced(x, pat, rep) =~= x);
    }
}

/// Pushes one character's escape through the four replacements that follow
/// the one that produced it: none of them touches it again.
proof fn lemma_entity_chain(c: char)
    ensures
        ({
            let a0 = replaced(seq![c], seq!['&'], seq!['&', 'a', 'm', 'p', ';']);
            let a1 = replaced(a0, seq!['<'], seq!['&', 'l', 't', ';']);
            let a2 = replaced(a1, seq!['>'], seq!['&', 'g', 't', ';']);
            let a3 = replaced(a2, seq!['"'], seq!['&', 'q', 'u', 'o', 't', ';']);
            let a4 = replaced(a3, seq!['\''], seq!['&', '#', '0', '3', '9', ';']);
            a4 == entity_of(c)
        }),
{
    let amp = seq!['&', 'a', 'm', 'p', ';'];
    let lt = seq!['&', 'l', 't', ';'];
    let gt = seq!['&', 'g', 't', ';'];
    let quot = seq!['&', 'q', 'u', 'o', 't', ';'];
    let apos = seq!['&', '#', '0', '3', '9', ';'];
    lemma_replace1_single(c, '&', amp);
    if c == '&' {
        assert(forall|j: int| 0 <= j < amp.len() ==> amp[j] != '<');
        assert(forall|j: int| 0 <= j < amp.len() ==> amp[j] != '>');
        assert(forall|j: int| 0 <= j < amp.len() ==> amp[j] != '"');
        assert(forall|j: int| 0 <= j < amp.len() ==> amp[j] != '\'');
        lemma_replace1_absent(amp, '<', lt);
        lemma_replace1_absent(amp, '>', gt);
        lemma_replace1_absent(amp, '"', quot);
        lemma_replace1_absent(amp, '\'', apos);
    } else if c == '<' {
        lemma_replace1_single(c, '<', lt);
        assert(forall|j: int| 0 <= j < lt.len() ==> lt[j] != '>');
        assert(forall|j: int| 0 <= j < lt.len() ==> lt[j] != '"');
        assert(forall|j: int| 0 <= j < lt.len() ==> lt[j] != '\'');
        lemma_replace1_absent(lt, '>', gt);
        lemma_replace1_absent(lt, '"', quot);
        lemma_replace1_absent(lt, '\'', apos);
    } else if c == '>' {
        lemma_replace1_single(c, '<', lt);
        lemma_replace1_single(c, '>', gt);
        assert(forall|j: int| 0 <= j < gt.len() ==> gt[j] != '"');
        assert(forall|j: int| 0 <= j < gt.len() ==> gt[j] != '\'');
        lemma_replace1_absent(gt, '"', quot);
        lemma_replace1_absent(gt, '\'', apos);
    } else if c == '"' {
        lemma_replace1_single(c, '<', lt);
        lemma_replace1_single(c, '>', gt);
        lemma_replace1_single(c, '"', quot);
        assert(forall|j: int| 0 <= j < quot.len() ==> quot[j] != '\'');
        lemma_replace1_absent(quot, '\'', apos);
    } else if c == '\'' {
        lemma_replace1_single(c, '<', lt);
        lemma_replace1_single(c, '>', gt);
        lemma_replace1_single(c, '"', quot);
        lemma_replace1_single(c, '\'', apos);
    } else {
        lemma_replace1_single(c, '<', lt);
        lemma_replace1_single(c, '>', gt);
        lemma_replace1_single(c, '"', quot);
        lemma_replace1_single(c, '\'', apos);
    }
}

/// The per-character escape equals the five textual replacements applied in
/// the fixed order — ampersand first, so the entities the later substitutions
/// introduce are never escaped again.
pub proof fn lemma_escape_is_ordered_replacement(s: Seq<char>)
    ensures
        escaped_html(s) == replaced(
            replaced(
                replaced(replaced(replaced(s, "&"@, "&amp;"@), "<"@, "&lt;"@), ">"@, "&gt;"@),
                "\""@,
                "&quot;"@,
            ),
            "'"@,
            "&#039;"@,
        ),
    decreases s.len(),
{
    reveal_strlit("&");
    reveal_strlit("&amp;");
    reveal_strlit("<");
    reveal_strlit("&lt;");
    reveal_strlit(">");
    reveal_strlit("&gt;");
    reveal_strlit("\"");
    reveal_strlit("&quot;");
    reveal_strlit("'");
    reveal_strlit("&#039;");
    let amp = seq!['&', 'a', 'm', 'p', ';'];
    let lt = seq!['&', 'l', 't', ';'];
    let gt = seq!['&', 'g', 't', ';'];
    let quot = seq!['&', 'q', 'u', 'o', 't', ';'];
    let apos = seq!['&', '#', '0', '3', '9', ';'];
    assert("&"@ =~= seq!['&']);
    assert("&amp;"@ =~= amp);
    assert("<"@ =~= seq!['<']);
    assert("&lt;"@ =~= lt);
    assert(">"@ =~= seq!['>']);
    assert("&gt;"@ =~= gt);
    assert("\""@ =~= seq!['"']);
    assert("&quot;"@ =~= quot);
    assert("'"@ =~= seq!['\'']);
    assert("&#039;"@ =~= apos);
    if s.len() == 0 {
        lemma_replace1_empty('&', amp);
        lemma_replace1_empty('<', lt);
        lemma_replace1_empty('>', gt);
        lemma_replace1_empty('"', quot);
        lemma_replace1_empty('\'', apos);
    } else {
        let c = s[0];
        let s1 = s.skip(1);
        lemma_escape_is_ordered_replacement(s1);
        assert(s =~= seq![c] + s1);
        let a0 = replaced(seq![c], seq!['&'], amp);
        let b0 = replaced(s1, seq!['&'], amp);
        lemma_replace1_concat(seq![c], s1, '&', amp);
        let a1 = replaced(a0, seq!['<'], lt);
        let b1 = replaced(b0, seq!['<'], lt);
        lemma_replace1_concat(a0, b0, '<', lt);
        let a2 = replaced(a1, seq!['>'], gt);
        let b2 = replaced(b1, seq!['>'], gt);
        lemma_replace1_concat(a1, b1, '>', gt);
        let a3 = replaced(a2, seq!['"'], quot);
        let b3 = replaced(b2, seq!['"'], quot);
        lemma_replace1_concat(a2, b2, '"', quot);
        let a4 = replaced(a3, seq!['\''], apos);
        let b4 = replaced(b3, seq!['\''], apos);
        lemma_replace1_concat(a3, b3, '\'', apos);
        lemma_entity_chain(c);
        assert(escaped_html(s) == entity_of(c) + escaped_html(s1));
        assert(escaped_html(s) == a4 + b4);
    }
}

/// The template with the four placeholders substituted, in the fixed order
/// filename, language, theme, code. Substitution never rescans replacement
/// text, so it cannot itself re-trigger escaping.
pub open spec fn rendered(
    template: Seq<char>,
    filename: Seq<char>,
    language: Seq<char>,
    theme: Seq<char>,
    code: Seq<char>,
) -> Seq<char> {
    replaced(
        replaced(
            replaced(replaced(template, "{filename}"@, filename), "{language}"@, language),
            "{theme}"@,
            theme,
        ),
        "{code}"@,
        code,
    )
}

/// Renders the fixed HTML template around a code block.
pub struct TemplateManager;

impl TemplateManager {
    /// Substitutes the four named placeholders with the given values. A
    /// placeholder missing from the template simply drops that value; the
    /// template is not validated here.
    pub fn render_code_block(
        template: &str,
        filename: &str,
        language: &str,
        theme: &str,
        code: &str,
    ) -> (r: String)
        ensures
            r@ == rendered(template@, filename@, language@, theme@, code@),
    {
        proof {
            reveal_strlit("{filename}");
            reveal_strlit("{language}");
            reveal_strlit("{theme}");
            reveal_strlit("{code}");
        }
        let t0 = chars_of(template);
        let t1 = replace_chars(&t0, &chars_of("{filename}"), &chars_of(filename));
        let t2 = replace_chars(&t1, &chars_of("{language}"), &chars_of(language));
        let t3 = replace_chars(&t2, &chars_of("{theme}"), &chars_of(theme));
        let t4 = replace_chars(&t3, &chars_of("{code}"), &chars_of(code));
        string_of(&t4)
    }
}

} // verus!
