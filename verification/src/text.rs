//! Character-level string toolkit: conversions between `String` and
//! `Vec<char>`, comparisons, ASCII lowercasing, splitting and joining on a
//! separator character, and substring replacement.

use vstd::prelude::*;

verus! {

/// Relies on `String::push`: appends the given character to the end of the string.
#[verifier::external_body]
pub(crate) fn push_char(s: &mut String, c: char)
    ensures
        final(s)@ == old(s)@.push(c),
{
    s.push(c)
}

/// The characters of a string slice, as a vector.
pub fn chars_of(s: &str) -> (r: Vec<char>)
    ensures
        r@ == s@,
{
    let n = s.unicode_len();
    let mut r: Vec<char> = Vec::new();
    let mut i: usize = 0;
    while i < n
        invariant
            n == s@.len(),
            i <= n,
            r@ == s@.take(i as int),
        decreases n - i,
    {
        let c = s.get_char(i);
        r.push(c);
        proof {
            assert(s@.take(i + 1) =~= s@.take(i as int).push(s@[i as int]));
        }
        i += 1;
    }
    proof {
        assert(s@.take(n as int) =~= s@);
    }
    r
}

/// A `String` holding exactly the given characters.
pub fn string_of(v: &Vec<char>) -> (r: String)
    ensures
        r@ == v@,
{
    let mut r = String::new();
    let mut i: usize = 0;
    while i < v.len()
        invariant
            i <= v.len(),
            r@ == v@.take(i as int),
        decreases v.len() - i,
    {
        push_char(&mut r, v[i]);
        proof {
            assert(v@.take(i + 1) =~= v@.take(i as int).push(v@[i as int]));
        }
        i += 1;
    }
    proof {
        assert(v@.take(v.len() as int) =~= v@);
    }
    r
}

/// Whether a character vector holds the same characters as a string slice.
pub fn chars_eq_str(v: &Vec<char>, s: &str) -> (r: bool)
    ensures
        r == (v@ == s@),
{
    let n = s.unicode_len();
    if v.len() != n {
        return false;
    }
    let mut i: usize = 0;
    while i < n
        invariant
            i <= n,
            n == s@.len(),
            v@.len() == n,
            forall|j: int| 0 <= j < i ==> v@[j] == s@[j],
        decreases n - i,
    {
        if v[i] != s.get_char(i) {
            return false;
        }
        i += 1;
    }
    proof {
        assert(v@ =~= s@);
    }
    true
}

/// Appends every character of `src` to `dst`.
pub fn push_all(dst: &mut Vec<char>, src: &Vec<char>)
    ensures
        final(dst)@ == old(dst)@ + src@,
{
    let mut i: usize = 0;
    while i < src.len()
        invariant
            i <= src.len(),
            dst@ == old(dst)@ + src@.take(i as int),
        decreases src.len() - i,
    {
        dst.push(src[i]);
        proof {
            assert(old(dst)@ + src@.take(i + 1) =~= (old(dst)@ + src@.take(i as int)).push(
                src@[i as int],
            ));
        }
        i += 1;
    }
    proof {
        assert(old(dst)@ + src@.take(src.len() as int) =~= old(dst)@ + src@);
    }
}

/// An upper-case ASCII letter mapped to its lower-case form; all other
/// characters are left as they are.
pub open spec fn lower_char(c: char) -> char {
    if 'A' <= c && c <= 'Z' {
        (((c as u8) + 32) as char)
    } else {
        c
    }
}

/// `lower_char` applied to every character.
pub open spec fn lower_seq(s: Seq<char>) -> Seq<char> {
    s.map_values(|c: char| lower_char(c))
}

/// Lower-cases the ASCII letters of a character vector.
pub fn lower_chars(v: &Vec<char>) -> (r: Vec<char>)
    ensures
        r@ == lower_seq(v@),
{
    let mut r: Vec<char> = Vec::new();
    let mut i: usize = 0;
    while i < v.len()
        invariant
            i <= v.len(),
            r@ == lower_seq(v@.take(i as int)),
        decreases v.len() - i,
    {
        let c = v[i];
        if 'A' <= c && c <= 'Z' {
            r.push(((c as u8) + 32) as char);
        } else {
            r.push(c);
        }
        proof {
            assert(lower_seq(v@.take(i + 1)) =~= lower_seq(v@.take(i as int)).push(lower_char(
                v@[i as int],
            )));
        }
        i += 1;
    }
    proof {
        assert(lower_seq(v@.take(v.len() as int)) =~= lower_seq(v@));
    }
    r
}

/// The pieces of `s` between occurrences of the separator `sep`, in order.
/// There is always at least one piece; none of them contains `sep`.
pub open spec fn split_on(s: Seq<char>, sep: char) -> Seq<Seq<char>>
    decreases s.len(),
{
    if s.len() == 0 {
        seq![Seq::<char>::empty()]
    } else if s[0] == sep {
        seq![Seq::<char>::empty()] + split_on(s.skip(1), sep)
    } else {
        let rest = split_on(s.skip(1), sep);
        seq![seq![s[0]] + rest[0]] + rest.skip(1)
    }
}

/// The parts joined back together with `sep` between neighbours.
pub open spec fn join_with(parts: Seq<Seq<char>>, sep: char) -> Seq<char>
    decreases parts.len(),
{
    if parts.len() == 0 {
        Seq::<char>::empty()
    } else if parts.len() == 1 {
        parts[0]
    } else {
        parts[0] + seq![sep] + join_with(parts.skip(1), sep)
    }
}

/// Splitting always yields at least one piece, and no piece contains the
/// separator.
pub proof fn lemma_split_on_parts(s: Seq<char>, sep: char)
    ensures
        split_on(s, sep).len() >= 1,
        forall|i: int, j: int|
            0 <= i < split_on(s, sep).len() && 0 <= j < split_on(s, sep)[i].len()
                ==> split_on(s, sep)[i][j] != sep,
    decreases s.len(),
{
    if s.len() == 0 {
    } else if s[0] == sep {
        lemma_split_on_parts(s.skip(1), sep);
    } else {
        lemma_split_on_parts(s.skip(1), sep);
        let rest = split_on(s.skip(1), sep);
        let whole = split_on(s, sep);
        assert forall|i: int, j: int|
            0 <= i < whole.len() && 0 <= j < whole[i].len() implies whole[i][j] != sep by {
            if i == 0 {
                if j == 0 {
                } else {
                    assert(whole[0][j] == rest[0][j - 1]);
                }
            } else {
                assert(whole[i] == rest[i]);
            }
        }
    }
}

/// Splitting a separator-free string yields that string as the only piece.
pub proof fn lemma_split_on_sep_free(s: Seq<char>, sep: char)
    requires
        forall|j: int| 0 <= j < s.len() ==> s[j] != sep,
    ensures
        split_on(s, sep) == seq![s],
    decreases s.len(),
{
    if s.len() == 0 {
        assert(split_on(s, sep) =~~= seq![s]);
    } else {
        lemma_split_on_sep_free(s.skip(1), sep);
        assert(seq![s[0]] + s.skip(1) =~= s);
        assert(split_on(s, sep) =~~= seq![s]);
    }
}

/// Splitting `a + sep + b` for separator-free `a` peels `a` off as the first
/// piece.
pub proof fn lemma_split_on_concat(a: Seq<char>, b: Seq<char>, sep: char)
    requires
        forall|j: int| 0 <= j < a.len() ==> a[j] != sep,
    ensures
        split_on(a + seq![sep] + b, sep) == seq![a] + split_on(b, sep),
    decreases a.len(),
{
    let s = a + seq![sep] + b;
    if a.len() == 0 {
        assert(s[0] == sep);
        assert(s.skip(1) =~= b);
        assert(split_on(s, sep) =~~= seq![a] + split_on(b, sep));
    } else {
        lemma_split_on_concat(a.skip(1), b, sep);
        assert(s.skip(1) =~= a.skip(1) + seq![sep] + b);
        let rest = split_on(s.skip(1), sep);
        assert(rest == seq![a.skip(1)] + split_on(b, sep));
        assert(rest[0] == a.skip(1));
        assert(seq![s[0]] + rest[0] =~= a);
        assert(rest.skip(1) =~= split_on(b, sep));
        assert(split_on(s, sep) =~~= seq![a] + split_on(b, sep));
    }
}

/// Splitting inverts joining, for at least one separator-free part.
pub proof fn lemma_split_of_join(parts: Seq<Seq<char>>, sep: char)
    requires
        parts.len() >= 1,
        forall|i: int, j: int|
            0 <= i < parts.len() && 0 <= j < parts[i].len() ==> parts[i][j] != sep,
    ensures
        split_on(join_with(parts, sep), sep) == parts,
    decreases parts.len(),
{
    if parts.len() == 1 {
        lemma_split_on_sep_free(parts[0], sep);
        assert(split_on(join_with(parts, sep), sep) =~~= parts);
    } else {
        lemma_split_of_join(parts.skip(1), sep);
        lemma_split_on_concat(parts[0], join_with(parts.skip(1), sep), sep);
        assert(split_on(join_with(parts, sep), sep) =~~= parts);
    }
}

/// Joining one more part appends a separator and that part.
pub proof fn lemma_join_with_push(parts: Seq<Seq<char>>, x: Seq<char>, sep: char)
    ensures
        parts.len() == 0 ==> join_with(parts.push(x), sep) == x,
        parts.len() >= 1 ==> join_with(parts.push(x), sep) == join_with(parts, sep) + seq![sep]
            + x,
    decreases parts.len(),
{
    if parts.len() == 0 {
        assert(parts.push(x)[0] == x);
        assert(join_with(parts.push(x), sep) == x);
    } else if parts.len() == 1 {
        assert(parts.push(x).skip(1) =~~= seq![x]);
        assert(parts.push(x)[0] == parts[0]);
        assert(join_with(seq![x], sep) == x);
        assert(join_with(parts.push(x), sep) == parts.push(x)[0] + seq![sep] + join_with(
            parts.push(x).skip(1),
            sep,
        ));
    } else {
        lemma_join_with_push(parts.skip(1), x, sep);
        assert(parts.push(x).skip(1) =~~= parts.skip(1).push(x));
        assert(join_with(parts, sep) + seq![sep] + x =~= parts[0] + seq![sep] + (join_with(
            parts.skip(1),
            sep,
        ) + seq![sep] + x));
    }
}

/// Splits a character vector on a separator character.
pub fn split_chars(v: &Vec<char>, sep: char) -> (r: Vec<Vec<char>>)
    ensures
        r.deep_view() == split_on(v@, sep),
{
    let ghost whole = split_on(v@, sep);
    let mut acc: Vec<Vec<char>> = Vec::new();
    let mut cur: Vec<char> = Vec::new();
    let mut i: usize = 0;
    proof {
        lemma_split_on_parts(v@, sep);
        assert(v@.skip(0) =~= v@);
        assert(acc.deep_view() + (seq![cur@ + whole[0]] + whole.skip(1)) =~~= whole);
    }
    while i < v.len()
        invariant
            i <= v.len(),
            whole == split_on(v@, sep),
            split_on(v@.skip(i as int), sep).len() >= 1,
            whole =~~= acc.deep_view() + (seq![cur@ + split_on(v@.skip(i as int), sep)[0]]
                + split_on(v@.skip(i as int), sep).skip(1)),
        decreases v.len() - i,
    {
        let ghost sl = split_on(v@.skip(i as int), sep);
        let ghost sl2 = split_on(v@.skip(i + 1), sep);
        proof {
            lemma_split_on_parts(v@.skip(i + 1), sep);
            assert(v@.skip(i as int)[0] == v@[i as int]);
            assert(v@.skip(i as int).skip(1) =~= v@.skip(i + 1));
        }
        let c = v[i];
        if c == sep {
            proof {
                assert(sl =~~= seq![Seq::<char>::empty()] + sl2);
                assert(sl.skip(1) =~~= sl2);
            }
            acc.push(cur);
            cur = Vec::new();
        } else {
            cur.push(c);
            proof {
                assert(sl =~~= seq![seq![v@[i as int]] + sl2[0]] + sl2.skip(1));
                assert(sl.skip(1) =~~= sl2.skip(1));
            }
        }
        proof {
            assert(whole =~~= acc.deep_view() + (seq![cur@ + sl2[0]] + sl2.skip(1)));
        }
        i += 1;
    }
    proof {
        assert(v@.skip(v.len() as int) =~= Seq::<char>::empty());
    }
    acc.push(cur);
    proof {
        assert(acc.deep_view() =~~= whole);
    }
    acc
}

/// Joins the parts with a separator character between neighbours.
pub fn join_chars(parts: &Vec<Vec<char>>, sep: char) -> (r: Vec<char>)
    ensures
        r@ == join_with(parts.deep_view(), sep),
{
    let mut r: Vec<char> = Vec::new();
    let mut i: usize = 0;
    while i < parts.len()
        invariant
            i <= parts.len(),
            r@ == join_with(parts.deep_view().take(i as int), sep),
        decreases parts.len() - i,
    {
        if i > 0 {
            r.push(sep);
        }
        push_all(&mut r, &parts[i]);
        proof {
            lemma_join_with_push(parts.deep_view().take(i as int), parts@[i as int]@, sep);
            assert(parts.deep_view().take(i + 1) =~~= parts.deep_view().take(i as int).push(
                parts@[i as int]@,
            ));
        }
        i += 1;
    }
    proof {
        assert(parts.deep_view().take(parts.len() as int) =~~= parts.deep_view());
    }
    r
}

/// `s` with every occurrence of `pat` replaced by `rep`, scanning left to
/// right and never rescanning replacement text. An empty pattern replaces
/// nothing.
pub open spec fn replaced(s: Seq<char>, pat: Seq<char>, rep: Seq<char>) -> Seq<char>
    decreases s.len(),
{
    if pat.len() == 0 || s.len() < pat.len() {
        s
    } else if s.take(pat.len() as int) == pat {
        rep + replaced(s.skip(pat.len() as int), pat, rep)
    } else {
        seq![s[0]] + replaced(s.skip(1), pat, rep)
    }
}

/// Whether `pat` occurs in `s` starting at position `at`.
fn is_match_at(s: &Vec<char>, at: usize, pat: &Vec<char>) -> (r: bool)
    requires
        at + pat@.len() <= s@.len(),
    ensures
        r == (s@.skip(at as int).take(pat@.len() as int) == pat@),
{
    let mut j: usize = 0;
    while j < pat.len()
        invariant
            j <= pat.len(),
            at + pat@.len() <= s@.len(),
            forall|k: int| 0 <= k < j ==> s@[at + k] == pat@[k],
        decreases pat.len() - j,
    {
        let n = s.len();
        assert(at + j < n);
        if s[at + j] != pat[j] {
            proof {
                assert(s@.skip(at as int).take(pat@.len() as int)[j as int] == s@[at + j]);
            }
            return false;
        }
        j += 1;
    }
    proof {
        assert(s@.skip(at as int).take(pat@.len() as int) =~= pat@);
    }
    true
}

/// Replaces every occurrence of `pat` in `s` by `rep`, left to right.
pub fn replace_chars(s: &Vec<char>, pat: &Vec<char>, rep: &Vec<char>) -> (r: Vec<char>)
    requires
        pat@.len() >= 1,
    ensures
        r@ == replaced(s@, pat@, rep@),
{
    let mut out: Vec<char> = Vec::new();
    let mut i: usize = 0;
    proof {
        assert(s@.skip(0) =~= s@);
    }
    while i < s.len()
        invariant
            i <= s.len(),
            pat@.len() >= 1,
            replaced(s@, pat@, rep@) == out@ + replaced(s@.skip(i as int), pat@, rep@),
        decreases s.len() - i,
    {
        let ghost t = s@.skip(i as int);
        if pat.len() <= s.len() - i && is_match_at(s, i, pat) {
            push_all(&mut out, rep);
            proof {
                assert(t.skip(pat@.len() as int) =~= s@.skip(i + pat@.len()));
                assert(replaced(t, pat@, rep@) == rep@ + replaced(
                    s@.skip(i + pat@.len()),
                    pat@,
                    rep@,
                ));
            }
            i += pat.len();
        } else {
            out.push(s[i]);
            proof {
                assert(t[0] == s@[i as int]);
                assert(t.skip(1) =~= s@.skip(i + 1));
                if t.len() < pat@.len() {
                    assert(replaced(t, pat@, rep@) == t);
                    assert(t =~= seq![t[0]] + t.skip(1));
                    assert(replaced(t.skip(1), pat@, rep@) == t.skip(1));
                }
            }
            i += 1;
        }
    }
    proof {
        assert(s@.skip(s.len() as int) =~= Seq::<char>::empty());
    }
    out
}

} // verus!
