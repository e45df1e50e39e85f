//! Blank-line normalization and code-file selection: strips blank lines from
//! source text, prunes paths under well-known vendor/build directories, and
//! keeps exactly the paths whose extension is in the supported set.

use vstd::prelude::*;

use crate::language::{ext_of, extension_is_supported, extension_of, is_supported_ext};
use crate::text::lower_seq;
use crate::text::{
    chars_eq_str, chars_of, join_chars, join_with, lemma_split_of_join, split_chars, split_on,
    string_of,
};

verus! {

/// Whitespace for the purpose of deciding that a line is blank: the fixed
/// Unicode White_Space list, the set that `str::trim` removes.
pub open spec fn is_space_char(c: char) -> bool {
    c == '\u{9}' || c == '\u{a}' || c == '\u{b}' || c == '\u{c}' || c == '\u{d}' || c == ' '
        || c == '\u{85}' || c == '\u{a0}' || c == '\u{1680}' || c == '\u{2000}' || c == '\u{2001}'
        || c == '\u{2002}' || c == '\u{2003}' || c == '\u{2004}' || c == '\u{2005}'
        || c == '\u{2006}' || c == '\u{2007}' || c == '\u{2008}' || c == '\u{2009}'
        || c == '\u{200a}' || c == '\u{2028}' || c == '\u{2029}' || c == '\u{202f}'
        || c == '\u{205f}' || c == '\u{3000}'
}

/// Whether one character counts as whitespace for blank-line detection.
fn is_space(c: char) -> (r: bool)
    ensures
        r == is_space_char(c),
{
    c == '\u{9}' || c == '\u{a}' || c == '\u{b}' || c == '\u{c}' || c == '\u{d}' || c == ' '
        || c == '\u{85}' || c == '\u{a0}' || c == '\u{1680}' || c == '\u{2000}' || c == '\u{2001}'
        || c == '\u{2002}' || c == '\u{2003}' || c == '\u{2004}' || c == '\u{2005}'
        || c == '\u{2006}' || c == '\u{2007}' || c == '\u{2008}' || c == '\u{2009}'
        || c == '\u{200a}' || c == '\u{2028}' || c == '\u{2029}' || c == '\u{202f}'
        || c == '\u{205f}' || c == '\u{3000}'
}

/// A line is blank when every character in it is whitespace: its trimmed
/// content is empty.
pub open spec fn is_blank_line(l: Seq<char>) -> bool {
    forall|i: int| 0 <= i < l.len() ==> is_space_char(l[i])
}

/// A line that arose from a line-feed break, with the carriage return of a
/// CRLF ending removed: at most one, and only at the end.
pub open spec fn strip_crlf(l: Seq<char>) -> Seq<char> {
    if l.len() > 0 && l.last() == '\r' {
        l.drop_last()
    } else {
        l
    }
}

/// The lines that normalization keeps, in order: every piece but the last
/// came from a line-feed break and loses the carriage return of a CRLF
/// ending; blank lines are dropped.
pub open spec fn kept_lines(ls: Seq<Seq<char>>) -> Seq<Seq<char>>
    decreases ls.len(),
{
    if ls.len() == 0 {
        Seq::<Seq<char>>::empty()
    } else {
        let l0 = if ls.len() == 1 {
            ls[0]
        } else {
            strip_crlf(ls[0])
        };
        let rest = kept_lines(ls.skip(1));
        if is_blank_line(l0) {
            rest
        } else {
            seq![l0] + rest
        }
    }
}

/// Text with every blank line removed: the text is split into lines as
/// `str::lines` does, blank lines are dropped, and the remainder is joined
/// back with newlines.
pub open spec fn normalized(s: Seq<char>) -> Seq<char> {
    join_with(kept_lines(split_on(s, '\n')), '\n')
}

/// Every kept line is non-blank, and free of newlines given newline-free
/// input lines.
pub proof fn lemma_kept_lines_shape(ls: Seq<Seq<char>>)
    requires
        forall|i: int, j: int| 0 <= i < ls.len() && 0 <= j < ls[i].len() ==> ls[i][j] != '\n',
    ensures
        forall|k: int| 0 <= k < kept_lines(ls).len() ==> !is_blank_line(kept_lines(ls)[k]),
        forall|k: int, j: int|
            0 <= k < kept_lines(ls).len() && 0 <= j < kept_lines(ls)[k].len() ==> kept_lines(
                ls,
            )[k][j] != '\n',
    decreases ls.len(),
{
    if ls.len() == 0 {
    } else {
        assert(forall|i: int, j: int|
            0 <= i < ls.skip(1).len() && 0 <= j < ls.skip(1)[i].len() ==> ls.skip(1)[i][j]
                != '\n') by {
            assert(forall|i: int| 0 <= i < ls.skip(1).len() ==> ls.skip(1)[i] == ls[i + 1]);
        }
        lemma_kept_lines_shape(ls.skip(1));
        let l0 = if ls.len() == 1 {
            ls[0]
        } else {
            strip_crlf(ls[0])
        };
        assert(forall|j: int| 0 <= j < l0.len() ==> l0[j] == ls[0][j]);
        let rest = kept_lines(ls.skip(1));
        if !is_blank_line(l0) {
            let kept = seq![l0] + rest;
            assert(kept[0] == l0);
            assert(forall|j: int| 0 <= j < l0.len() ==> l0[j] != '\n');
            assert(forall|k: int| 1 <= k < kept.len() ==> kept[k] == rest[k - 1]);
        }
    }
}

/// Lines that are already non-blank, no line before the last ending in a
/// carriage return, are kept unchanged.
pub proof fn lemma_kept_lines_fixed(ls: Seq<Seq<char>>)
    requires
        forall|i: int| 0 <= i < ls.len() ==> !is_blank_line(ls[i]),
        forall|i: int| 0 <= i < ls.len() - 1 ==> (ls[i].len() > 0 ==> ls[i].last() != '\r'),
    ensures
        kept_lines(ls) == ls,
    decreases ls.len(),
{
    if ls.len() == 0 {
        assert(kept_lines(ls) =~~= ls);
    } else {
        assert(forall|i: int| 0 <= i < ls.skip(1).len() ==> ls.skip(1)[i] == ls[i + 1]);
        lemma_kept_lines_fixed(ls.skip(1));
        if ls.len() > 1 {
            assert(ls[0].len() > 0 ==> ls[0].last() != '\r');
            assert(strip_crlf(ls[0]) == ls[0]);
        }
        assert(kept_lines(ls) =~~= ls);
    }
}

/// Whether a second normalization pass sees the lines of the first
/// unchanged: no kept line before the last still ends in a carriage return.
/// Only text in which a non-blank line ends in more than one carriage return
/// before its line feed falls outside this.
pub open spec fn renormalization_stable(s: Seq<char>) -> bool {
    let kept = kept_lines(split_on(s, '\n'));
    forall|i: int| 0 <= i < kept.len() - 1 ==> (kept[i].len() > 0 ==> kept[i].last() != '\r')
}

/// Normalization is idempotent: applying it twice yields the same text as
/// applying it once. A non-blank line ending in several carriage returns
/// before its line feed keeps one of them, which the next pass would remove
/// (as a second run of `str::lines` would); such text is left out.
pub proof fn lemma_normalized_idempotent(s: Seq<char>)
    requires
        renormalization_stable(s),
    ensures
        normalized(normalized(s)) == normalized(s),
{
    let parts = split_on(s, '\n');
    crate::text::lemma_split_on_parts(s, '\n');
    let kept = kept_lines(parts);
    lemma_kept_lines_shape(parts);
    if kept.len() == 0 {
        assert(normalized(s) == Seq::<char>::empty());
        let e = Seq::<char>::empty();
        assert(split_on(e, '\n') == seq![e]);
        assert(is_blank_line(e));
        assert(seq![e].skip(1) =~~= Seq::<Seq<char>>::empty());
        assert(kept_lines(Seq::<Seq<char>>::empty()) == Seq::<Seq<char>>::empty());
        assert(kept_lines(seq![e]) == kept_lines(seq![e].skip(1)));
        assert(normalized(e) == Seq::<char>::empty());
    } else {
        lemma_split_of_join(kept, '\n');
        lemma_kept_lines_fixed(kept);
    }
}

/// Every piece of the split of an all-whitespace text is blank.
proof fn lemma_split_all_space(s: Seq<char>)
    requires
        forall|i: int| 0 <= i < s.len() ==> is_space_char(s[i]),
    ensures
        forall|k: int| 0 <= k < split_on(s, '\n').len() ==> is_blank_line(split_on(s, '\n')[k]),
    decreases s.len(),
{
    if s.len() == 0 {
    } else {
        assert(forall|i: int| 0 <= i < s.skip(1).len() ==> is_space_char(s.skip(1)[i])) by {
            assert(forall|i: int| 0 <= i < s.skip(1).len() ==> s.skip(1)[i] == s[i + 1]);
        }
        lemma_split_all_space(s.skip(1));
        let rest = split_on(s.skip(1), '\n');
        if s[0] == '\n' {
            let whole = seq![Seq::<char>::empty()] + rest;
            assert(forall|k: int| 1 <= k < whole.len() ==> whole[k] == rest[k - 1]);
        } else {
            crate::text::lemma_split_on_parts(s.skip(1), '\n');
            let whole = seq![seq![s[0]] + rest[0]] + rest.skip(1);
            assert(is_blank_line(whole[0])) by {
                assert(whole[0] == seq![s[0]] + rest[0]);
                assert(whole[0][0] == s[0]);
                assert(forall|j: int| 1 <= j < whole[0].len() ==> whole[0][j] == rest[0][j - 1]);
            }
            assert(forall|k: int| 1 <= k < whole.len() ==> whole[k] == rest.skip(1)[k - 1]);
        }
    }
}

/// Blank lines are never kept.
proof fn lemma_kept_lines_blank(ls: Seq<Seq<char>>)
    requires
        forall|i: int| 0 <= i < ls.len() ==> is_blank_line(ls[i]),
    ensures
        kept_lines(ls) == Seq::<Seq<char>>::empty(),
    decreases ls.len(),
{
    if ls.len() == 0 {
        assert(kept_lines(ls) =~~= Seq::<Seq<char>>::empty());
    } else {
        assert(forall|i: int| 0 <= i < ls.skip(1).len() ==> ls.skip(1)[i] == ls[i + 1]);
        lemma_kept_lines_blank(ls.skip(1));
        let l0 = if ls.len() == 1 {
            ls[0]
        } else {
            strip_crlf(ls[0])
        };
        assert(is_blank_line(l0)) by {
            assert(is_blank_line(ls[0]));
            assert forall|i: int| 0 <= i < l0.len() implies is_space_char(l0[i]) by {
                assert(l0[i] == ls[0][i]);
                assert(is_space_char(ls[0][i]));
            }
        }
    }
}

/// Text with no non-blank line normalizes to the empty string.
pub proof fn lemma_normalized_all_blank(s: Seq<char>)
    requires
        forall|i: int| 0 <= i < s.len() ==> is_space_char(s[i]),
    ensures
        normalized(s) == Seq::<char>::empty(),
{
    lemma_split_all_space(s);
    lemma_kept_lines_blank(split_on(s, '\n'));
}

/// A copy of the line; when it arose from a line-feed break, the carriage
/// return of a CRLF ending is removed.
fn strip_line(l: &Vec<char>, from_line_feed: bool) -> (r: Vec<char>)
    ensures
        from_line_feed ==> r@ == strip_crlf(l@),
        !from_line_feed ==> r@ == l@,
{
    let mut e: usize = l.len();
    if from_line_feed && e > 0 && l[e - 1] == '\r' {
        e -= 1;
        proof {
            assert(l@.take(e as int) =~= l@.drop_last());
        }
    } else {
        proof {
            assert(l@.take(e as int) =~= l@);
        }
    }
    let mut r: Vec<char> = Vec::new();
    let mut i: usize = 0;
    while i < e
        invariant
            i <= e <= l.len(),
            r@ == l@.take(e as int).take(i as int),
        decreases e - i,
    {
        r.push(l[i]);
        proof {
            assert(l@.take(e as int).take(i + 1) =~= l@.take(e as int).take(i as int).push(
                l@[i as int],
            ));
        }
        i += 1;
    }
    proof {
        assert(l@.take(e as int).take(e as int) =~= l@.take(e as int));
    }
    r
}

/// Whether every character of the line is whitespace.
fn is_blank_chars(l: &Vec<char>) -> (r: bool)
    ensures
        r == is_blank_line(l@),
{
    let mut i: usize = 0;
    while i < l.len()
        invariant
            i <= l.len(),
            forall|j: int| 0 <= j < i ==> is_space_char(l@[j]),
        decreases l.len() - i,
    {
        if !is_space(l[i]) {
            return false;
        }
        i += 1;
    }
    true
}

/// Returns the text unchanged when the flag is off; with the flag on, splits
/// the text into lines as `str::lines` does, removes every line whose trimmed
/// content is empty (internal blank lines included), and joins what remains
/// with newlines.
pub fn process_empty_lines(code: &str, remove_empty_lines: bool) -> (r: String)
    ensures
        remove_empty_lines ==> r@ == normalized(code@),
        !remove_empty_lines ==> r@ == code@,
{
    if !remove_empty_lines {
        return code.to_owned();
    }
    let chars = chars_of(code);
    let parts = split_chars(&chars, '\n');
    let ghost ls = parts.deep_view();
    let mut kept: Vec<Vec<char>> = Vec::new();
    let mut i: usize = 0;
    proof {
        assert(ls.skip(0) =~~= ls);
        assert(kept_lines(ls) =~~= kept.deep_view() + kept_lines(ls.skip(0)));
    }
    while i < parts.len()
        invariant
            i <= parts.len(),
            ls == parts.deep_view(),
            ls == split_on(code@, '\n'),
            kept_lines(ls) == kept.deep_view() + kept_lines(ls.skip(i as int)),
        decreases parts.len() - i,
    {
        proof {
            assert(ls.skip(i as int)[0] == ls[i as int]);
            assert(ls.skip(i as int).skip(1) =~~= ls.skip(i + 1));
            assert(parts.deep_view()[i as int] =~= parts@[i as int]@);
            assert(ls.skip(i as int).len() == parts.len() - i);
        }
        let from_line_feed = i + 1 < parts.len();
        let stripped = strip_line(&parts[i], from_line_feed);
        if !is_blank_chars(&stripped) {
            kept.push(stripped);
        }
        proof {
            assert(kept_lines(ls) =~~= kept.deep_view() + kept_lines(ls.skip(i + 1)));
        }
        i += 1;
    }
    proof {
        assert(ls.skip(parts.len() as int) =~~= Seq::<Seq<char>>::empty());
        assert(kept.deep_view() + Seq::<Seq<char>>::empty() =~~= kept.deep_view());
    }
    let joined = join_chars(&kept, '\n');
    string_of(&joined)
}

/// Directory names pruned from traversal entirely, at any depth.
pub open spec fn is_excluded_name(s: Seq<char>) -> bool {
    s == "node_modules"@ || s == "vendor"@ || s == ".git"@ || s == "target"@
}

/// Whether any slash-separated component of the path is an excluded name.
pub open spec fn is_excluded_path(p: Seq<char>) -> bool {
    exists|i: int|
        0 <= i < split_on(p, '/').len() && is_excluded_name(split_on(p, '/')[i])
}

/// Whether the path lies under (or is) a dependency, build, or
/// version-control directory that discovery prunes.
pub fn is_excluded_directory(path: &str) -> (r: bool)
    ensures
        r == is_excluded_path(path@),
{
    let chars = chars_of(path);
    let parts = split_chars(&chars, '/');
    let mut i: usize = 0;
    while i < parts.len()
        invariant
            i <= parts.len(),
            parts.deep_view() == split_on(path@, '/'),
            forall|j: int| 0 <= j < i ==> !is_excluded_name(split_on(path@, '/')[j]),
        decreases parts.len() - i,
    {
        proof {
            assert(parts.deep_view()[i as int] =~= parts@[i as int]@);
        }
        let p = &parts[i];
        if chars_eq_str(p, "node_modules") || chars_eq_str(p, "vendor") || chars_eq_str(p, ".git")
            || chars_eq_str(p, "target") {
            proof {
                assert(is_excluded_name(split_on(path@, '/')[i as int]));
            }
            return true;
        }
        i += 1;
    }
    false
}

/// A path qualifies when it is not under an excluded directory and its
/// extension, lower-cased, is in the supported set.
pub open spec fn is_code_file_path(p: Seq<char>) -> bool {
    &&& !is_excluded_path(p)
    &&& match ext_of(p) {
        Some(e) => is_supported_ext(lower_seq(e)),
        None => false,
    }
}

/// The subsequence of paths that qualify as code files, in order.
pub open spec fn selected_code_files(ps: Seq<Seq<char>>) -> Seq<Seq<char>>
    decreases ps.len(),
{
    if ps.len() == 0 {
        Seq::<Seq<char>>::empty()
    } else if is_code_file_path(ps[0]) {
        seq![ps[0]] + selected_code_files(ps.skip(1))
    } else {
        selected_code_files(ps.skip(1))
    }
}

/// Keeps exactly the regular-file paths whose extension (case-insensitive)
/// is supported and that are not under an excluded directory, in input order.
pub fn select_code_files(paths: &Vec<String>) -> (r: Vec<String>)
    ensures
        r.deep_view() == selected_code_files(paths.deep_view()),
{
    let ghost ps = paths.deep_view();
    let mut r: Vec<String> = Vec::new();
    let mut i: usize = 0;
    proof {
        assert(ps.skip(0) =~~= ps);
        assert(selected_code_files(ps) =~~= r.deep_view() + selected_code_files(ps.skip(0)));
    }
    while i < paths.len()
        invariant
            i <= paths.len(),
            ps == paths.deep_view(),
            selected_code_files(ps) == r.deep_view() + selected_code_files(ps.skip(i as int)),
        decreases paths.len() - i,
    {
        proof {
            assert(ps.skip(i as int)[0] == ps[i as int]);
            assert(ps.skip(i as int).skip(1) =~~= ps.skip(i + 1));
            assert(paths.deep_view()[i as int] =~= paths@[i as int]@);
        }
        let excluded = is_excluded_directory(paths[i].as_str());
        let mut qualifies = false;
        if !excluded {
            let chars = chars_of(paths[i].as_str());
            match extension_of(&chars) {
                Some(e) => {
                    let low = crate::text::lower_chars(&e);
                    qualifies = extension_is_supported(&low);
                },
                None => {},
            }
        }
        if qualifies {
            r.push(paths[i].clone());
        }
        proof {
            assert(selected_code_files(ps) =~~= r.deep_view() + selected_code_files(
                ps.skip(i + 1),
            ));
        }
        i += 1;
    }
    proof {
        assert(ps.skip(paths.len() as int) =~~= Seq::<Seq<char>>::empty());
        assert(r.deep_view() + Seq::<Seq<char>>::empty() =~~= r.deep_view());
    }
    r
}

/// Membership in a one-longer sequence of paths.
proof fn lemma_cons_contains(x: Seq<char>, t: Seq<Seq<char>>, q: Seq<char>)
    ensures
        (seq![x] + t).contains(q) <==> (x == q || t.contains(q)),
{
    if (seq![x] + t).contains(q) {
        let k = choose|k: int| 0 <= k < (seq![x] + t).len() && (seq![x] + t)[k] == q;
        if k == 0 {
        } else {
            assert(t[k - 1] == q);
        }
    }
    if x == q {
        assert((seq![x] + t)[0] == q);
    }
    if t.contains(q) {
        let k = choose|k: int| 0 <= k < t.len() && t[k] == q;
        assert((seq![x] + t)[k + 1] == q);
    }
}

/// Selection returns exactly the set of qualifying paths: a path is in the
/// selection if and only if it is among the inputs, its extension
/// (case-insensitive) is supported, and it is not under an excluded
/// directory.
pub proof fn lemma_selected_membership(ps: Seq<Seq<char>>, q: Seq<char>)
    ensures
        selected_code_files(ps).contains(q) <==> (ps.contains(q) && is_code_file_path(q)),
    decreases ps.len(),
{
    if ps.len() == 0 {
    } else {
        lemma_selected_membership(ps.skip(1), q);
        assert(ps =~~= seq![ps[0]] + ps.skip(1));
        lemma_cons_contains(ps[0], ps.skip(1), q);
        if is_code_file_path(ps[0]) {
            lemma_cons_contains(ps[0], selected_code_files(ps.skip(1)), q);
        }
    }
}

/// Selection never returns a path under an excluded directory such as
/// `node_modules`, `vendor`, `.git`, or `target`, at any nesting depth.
pub proof fn lemma_selected_not_excluded(ps: Seq<Seq<char>>, k: int)
    requires
        0 <= k < selected_code_files(ps).len(),
    ensures
        !is_excluded_path(selected_code_files(ps)[k]),
    decreases ps.len(),
{
    if ps.len() == 0 {
    } else if is_code_file_path(ps[0]) {
        if k == 0 {
        } else {
            lemma_selected_not_excluded(ps.skip(1), k - 1);
        }
    } else {
        lemma_selected_not_excluded(ps.skip(1), k);
    }
}

/// The final component of a path: the characters after the last slash.
pub open spec fn base_name_of(p: Seq<char>) -> Seq<char>
    decreases p.len(),
{
    if p.len() == 0 {
        p
    } else if p.last() == '/' {
        Seq::<char>::empty()
    } else {
        base_name_of(p.drop_last()).push(p.last())
    }
}

/// The final component is the slash-free suffix that follows the last slash.
proof fn lemma_base_name_suffix(p: Seq<char>, j: int)
    requires
        0 <= j <= p.len(),
        forall|k: int| j <= k < p.len() ==> p[k] != '/',
        j > 0 ==> p[j - 1] == '/',
    ensures
        base_name_of(p) == p.skip(j),
    decreases p.len(),
{
    if j == p.len() {
        if j > 0 {
            assert(p.last() == '/');
        }
        assert(base_name_of(p) =~= p.skip(j));
    } else {
        assert(p.last() != '/');
        lemma_base_name_suffix(p.drop_last(), j);
        assert(base_name_of(p.drop_last()).push(p.last()) =~= p.skip(j));
    }
}

/// An extension hangs off the end of its string, behind a dot.
proof fn lemma_ext_of_suffix(s: Seq<char>)
    ensures
        ext_of(s) matches Some(e) ==> {
            &&& s.len() > e.len()
            &&& e == s.skip(s.len() - e.len())
            &&& s[s.len() - e.len() - 1] == '.'
        },
    decreases s.len(),
{
    if s.len() == 0 {
    } else if s.last() == '/' {
    } else if s.last() == '.' {
        match ext_of(s) {
            Some(e) => {
                assert(e =~= s.skip(s.len() as int));
            },
            None => {},
        }
    } else {
        lemma_ext_of_suffix(s.drop_last());
        match ext_of(s.drop_last()) {
            Some(e0) => {
                let e = e0.push(s.last());
                assert(ext_of(s) == Some(e));
                assert(e =~= s.skip(s.len() - e.len()));
                assert(s[s.len() - e.len() - 1] == s.drop_last()[s.drop_last().len() - e0.len()
                    - 1]);
            },
            None => {},
        }
    }
}

/// The final path component, the source file's name.
pub fn file_name_of(path: &str) -> (r: String)
    ensures
        r@ == base_name_of(path@),
{
    let chars = chars_of(path);
    let mut j: usize = chars.len();
    while j > 0 && chars[j - 1] != '/'
        invariant
            j <= chars.len(),
            chars@ == path@,
            forall|k: int| j <= k < path@.len() ==> path@[k] != '/',
        decreases j,
    {
        j -= 1;
    }
    proof {
        lemma_base_name_suffix(path@, j as int);
    }
    let mut r: Vec<char> = Vec::new();
    let mut i: usize = j;
    while i < chars.len()
        invariant
            j <= i <= chars.len(),
            chars@ == path@,
            r@ == path@.subrange(j as int, i as int),
        decreases chars.len() - i,
    {
        r.push(chars[i]);
        proof {
            assert(path@.subrange(j as int, i + 1) =~= path@.subrange(j as int, i as int).push(
                path@[i as int],
            ));
        }
        i += 1;
    }
    proof {
        assert(path@.subrange(j as int, path@.len() as int) =~= path@.skip(j as int));
    }
    string_of(&r)
}

/// The final path component without its extension and the dot before it.
pub open spec fn stem_of(p: Seq<char>) -> Seq<char> {
    let b = base_name_of(p);
    match ext_of(b) {
        Some(e) => b.take(b.len() - e.len() - 1),
        None => b,
    }
}

/// The stem of the source file named by a path: the output file is named
/// after it.
pub fn file_stem_of(path: &str) -> (r: String)
    ensures
        r@ == stem_of(path@),
{
    let name = file_name_of(path);
    let b = chars_of(name.as_str());
    match extension_of(&b) {
        Some(e) => {
            proof {
                lemma_ext_of_suffix(b@);
            }
            let keep = b.len() - e.len() - 1;
            let mut r: Vec<char> = Vec::new();
            let mut i: usize = 0;
            while i < keep
                invariant
                    i <= keep <= b@.len(),
                    r@ == b@.take(keep as int).take(i as int),
                decreases keep - i,
            {
                r.push(b[i]);
                proof {
                    assert(b@.take(keep as int).take(i + 1) =~= b@.take(keep as int).take(
                        i as int,
                    ).push(b@[i as int]));
                }
                i += 1;
            }
            proof {
                assert(b@.take(keep as int).take(keep as int) =~= b@.take(keep as int));
            }
            string_of(&r)
        },
        None => name,
    }
}

} // verus!
