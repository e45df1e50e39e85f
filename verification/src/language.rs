//! Language classification: maps a file name's extension to a canonical
//! lowercase language tag, and holds the fixed set of extensions considered
//! code. Matching is case-insensitive; unknown or missing extensions fall
//! back to the generic `text` tag.

use vstd::prelude::*;

use crate::text::{chars_eq_str, chars_of, lower_chars, lower_seq};

verus! {

/// The extension of a file name or path: the characters after the last `.` of
/// the final path component, unless that component has no dot or starts with
/// its only dot.
pub open spec fn ext_of(s: Seq<char>) -> Option<Seq<char>>
    decreases s.len(),
{
    if s.len() == 0 {
        None
    } else if s.last() == '/' {
        None
    } else if s.last() == '.' {
        if s.len() >= 2 && s[s.len() - 2] != '/' {
            Some(Seq::<char>::empty())
        } else {
            None
        }
    } else {
        match ext_of(s.drop_last()) {
            Some(e) => Some(e.push(s.last())),
            None => None,
        }
    }
}

/// The extension of a path, as a character vector.
pub fn extension_of(v: &Vec<char>) -> (r: Option<Vec<char>>)
    ensures
        match r {
            Some(e) => ext_of(v@) == Some(e@),
            None => ext_of(v@) is None,
        },
{
    let mut j: usize = v.len();
    proof {
        assert(match ext_of(v@.take(j as int)) {
            Some(e) => ext_of(v@) == Some(e + v@.skip(j as int)),
            None => ext_of(v@) is None,
        }) by {
            assert(v@.take(v.len() as int) =~= v@);
            if ext_of(v@) is Some {
                assert(ext_of(v@)->0 + v@.skip(v.len() as int) =~= ext_of(v@)->0);
            }
        }
    }
    while j > 0
        invariant
            j <= v.len(),
            match ext_of(v@.take(j as int)) {
                Some(e) => ext_of(v@) == Some(e + v@.skip(j as int)),
                None => ext_of(v@) is None,
            },
        decreases j,
    {
        let ghost pre = v@.take(j as int);
        proof {
            assert(pre.last() == v@[j - 1]);
            assert(pre.drop_last() =~= v@.take(j - 1));
        }
        let c = v[j - 1];
        if c == '/' {
            return None;
        } else if c == '.' {
            if j >= 2 && v[j - 2] != '/' {
                proof {
                    assert(pre[j - 2] == v@[j - 2]);
                    assert(ext_of(pre) == Some(Seq::<char>::empty()));
                    assert(Seq::<char>::empty() + v@.skip(j as int) =~= v@.skip(j as int));
                }
                let mut e: Vec<char> = Vec::new();
                let mut k: usize = j;
                while k < v.len()
                    invariant
                        j <= k <= v.len(),
                        e@ == v@.subrange(j as int, k as int),
                    decreases v.len() - k,
                {
                    e.push(v[k]);
                    proof {
                        assert(v@.subrange(j as int, k + 1) =~= v@.subrange(j as int, k as int)
                            .push(v@[k as int]));
                    }
                    k += 1;
                }
                proof {
                    assert(v@.subrange(j as int, v.len() as int) =~= v@.skip(j as int));
                }
                return Some(e);
            } else {
                proof {
                    if j >= 2 {
                        assert(pre[j - 2] == v@[j - 2]);
                    }
                }
                return None;
            }
        } else {
            proof {
                if ext_of(v@.take(j - 1)) is Some {
                    let e0 = ext_of(v@.take(j - 1))->0;
                    assert(ext_of(pre) == Some(e0.push(v@[j - 1])));
                    assert(e0.push(v@[j - 1]) + v@.skip(j as int) =~= e0 + v@.skip(j - 1));
                }
            }
            j -= 1;
        }
    }
    proof {
        assert(v@.take(0) =~= Seq::<char>::empty());
    }
    None
}

/// The canonical language tag for a lower-cased extension.
pub open spec fn language_of_ext(e: Seq<char>) -> Seq<char> {
    if e == "php"@ {
        "php"@
    } else if e == "js"@ || e == "jsx"@ {
        "javascript"@
    } else if e == "ts"@ || e == "tsx"@ {
        "typescript"@
    } else if e == "py"@ {
        "python"@
    } else if e == "java"@ {
        "java"@
    } else if e == "c"@ || e == "h"@ {
        "c"@
    } else if e == "cpp"@ || e == "cc"@ || e == "cxx"@ || e == "hpp"@ {
        "cpp"@
    } else if e == "cs"@ {
        "csharp"@
    } else if e == "go"@ {
        "go"@
    } else if e == "rs"@ {
        "rust"@
    } else if e == "rb"@ {
        "ruby"@
    } else if e == "swift"@ {
        "swift"@
    } else if e == "kt"@ {
        "kotlin"@
    } else if e == "scala"@ {
        "scala"@
    } else if e == "html"@ || e == "htm"@ {
        "html"@
    } else if e == "css"@ {
        "css"@
    } else if e == "scss"@ {
        "scss"@
    } else if e == "sass"@ {
        "sass"@
    } else if e == "less"@ {
        "less"@
    } else if e == "json"@ {
        "json"@
    } else if e == "xml"@ {
        "xml"@
    } else if e == "yaml"@ || e == "yml"@ {
        "yaml"@
    } else if e == "sql"@ {
        "sql"@
    } else if e == "sh"@ || e == "bash"@ || e == "zsh"@ || e == "fish"@ {
        "bash"@
    } else if e == "ps1"@ {
        "powershell"@
    } else if e == "r"@ {
        "r"@
    } else if e == "m"@ {
        "matlab"@
    } else if e == "pl"@ {
        "perl"@
    } else if e == "lua"@ {
        "lua"@
    } else if e == "dart"@ {
        "dart"@
    } else if e == "vim"@ {
        "vim"@
    } else if e == "toml"@ {
        "toml"@
    } else if e == "ini"@ {
        "ini"@
    } else if e == "conf"@ {
        "conf"@
    } else if e == "dockerfile"@ {
        "dockerfile"@
    } else if e == "md"@ {
        "markdown"@
    } else {
        "text"@
    }
}

/// The language tag for a file name: the tag of its lower-cased extension, or
/// `text` when it has none.
pub open spec fn language_for(name: Seq<char>) -> Seq<char> {
    match ext_of(name) {
        Some(e) => language_of_ext(lower_seq(e)),
        None => "text"@,
    }
}

/// The canonical language tag for a file name, used for cosmetic labeling.
/// Unknown or missing extensions fail closed to `text`, never an error.
pub fn get_language_from_extension(filename: &str) -> (r: &'static str)
    ensures
        r@ == language_for(filename@),
{
    let chars = chars_of(filename);
    let ext = match extension_of(&chars) {
        Some(e) => e,
        None => {
            return "text";
        },
    };
    let e = lower_chars(&ext);
    if chars_eq_str(&e, "php") {
        "php"
    } else if chars_eq_str(&e, "js") || chars_eq_str(&e, "jsx") {
        "javascript"
    } else if chars_eq_str(&e, "ts") || chars_eq_str(&e, "tsx") {
        "typescript"
    } else if chars_eq_str(&e, "py") {
        "python"
    } else if chars_eq_str(&e, "java") {
        "java"
    } else if chars_eq_str(&e, "c") || chars_eq_str(&e, "h") {
        "c"
    } else if chars_eq_str(&e, "cpp") || chars_eq_str(&e, "cc") || chars_eq_str(&e, "cxx")
        || chars_eq_str(&e, "hpp") {
        "cpp"
    } else if chars_eq_str(&e, "cs") {
        "csharp"
    } else if chars_eq_str(&e, "go") {
        "go"
    } else if chars_eq_str(&e, "rs") {
        "rust"
    } else if chars_eq_str(&e, "rb") {
        "ruby"
    } else if chars_eq_str(&e, "swift") {
        "swift"
    } else if chars_eq_str(&e, "kt") {
        "kotlin"
    } else if chars_eq_str(&e, "scala") {
        "scala"
    } else if chars_eq_str(&e, "html") || chars_eq_str(&e, "htm") {
        "html"
    } else if chars_eq_str(&e, "css") {
        "css"
    } else if chars_eq_str(&e, "scss") {
        "scss"
    } else if chars_eq_str(&e, "sass") {
        "sass"
    } else if chars_eq_str(&e, "less") {
        "less"
    } else if chars_eq_str(&e, "json") {
        "json"
    } else if chars_eq_str(&e, "xml") {
        "xml"
    } else if chars_eq_str(&e, "yaml") || chars_eq_str(&e, "yml") {
        "yaml"
    } else if chars_eq_str(&e, "sql") {
        "sql"
    } else if chars_eq_str(&e, "sh") || chars_eq_str(&e, "bash") || chars_eq_str(&e, "zsh")
        || chars_eq_str(&e, "fish") {
        "bash"
    } else if chars_eq_str(&e, "ps1") {
        "powershell"
    } else if chars_eq_str(&e, "r") {
        "r"
    } else if chars_eq_str(&e, "m") {
        "matlab"
    } else if chars_eq_str(&e, "pl") {
        "perl"
    } else if chars_eq_str(&e, "lua") {
        "lua"
    } else if chars_eq_str(&e, "dart") {
        "dart"
    } else if chars_eq_str(&e, "vim") {
        "vim"
    } else if chars_eq_str(&e, "toml") {
        "toml"
    } else if chars_eq_str(&e, "ini") {
        "ini"
    } else if chars_eq_str(&e, "conf") {
        "conf"
    } else if chars_eq_str(&e, "dockerfile") {
        "dockerfile"
    } else if chars_eq_str(&e, "md") {
        "markdown"
    } else {
        "text"
    }
}

/// The fixed list of file extensions considered code, lower-cased.
pub open spec fn supported_extensions() -> Seq<Seq<char>> {
    seq![
        "php"@, "js"@, "jsx"@, "ts"@, "tsx"@, "py"@, "java"@, "c"@, "cpp"@, "cc"@, "cxx"@,
        "h"@, "hpp"@, "cs"@, "go"@, "rs"@, "rb"@, "swift"@, "kt"@, "scala"@, "html"@, "htm"@,
        "css"@, "scss"@, "sass"@, "less"@, "json"@, "xml"@, "yaml"@, "yml"@, "sql"@, "sh"@,
        "bash"@, "zsh"@, "fish"@, "ps1"@, "r"@, "m"@, "pl"@, "lua"@, "dart"@, "vim"@, "toml"@,
        "ini"@, "conf"@, "dockerfile"@, "md"@, "txt"@,
    ]
}

/// Whether a lower-cased extension belongs to the supported set.
pub open spec fn is_supported_ext(e: Seq<char>) -> bool {
    supported_extensions().contains(e)
}

/// The fixed set of extensions considered code.
pub fn get_supported_extensions() -> (r: Vec<&'static str>)
    ensures
        r.deep_view() == supported_extensions(),
{
    let r: Vec<&'static str> = vec![
        "php", "js", "jsx", "ts", "tsx", "py", "java", "c", "cpp", "cc", "cxx", "h", "hpp",
        "cs", "go", "rs", "rb", "swift", "kt", "scala", "html", "htm", "css", "scss", "sass",
        "less", "json", "xml", "yaml", "yml", "sql", "sh", "bash", "zsh", "fish", "ps1", "r",
        "m", "pl", "lua", "dart", "vim", "toml", "ini", "conf", "dockerfile", "md", "txt",
    ];
    proof {
        assert(r.deep_view() =~~= supported_extensions());
    }
    r
}

/// Whether a lower-cased extension is in the supported set.
pub fn extension_is_supported(e: &Vec<char>) -> (r: bool)
    ensures
        r == is_supported_ext(e@),
{
    let sup = get_supported_extensions();
    let mut i: usize = 0;
    while i < sup.len()
        invariant
            i <= sup.len(),
            sup.deep_view() == supported_extensions(),
            forall|j: int| 0 <= j < i ==> supported_extensions()[j] != e@,
        decreases sup.len() - i,
    {
        if chars_eq_str(e, sup[i]) {
            proof {
                assert(supported_extensions()[i as int] == e@);
            }
            return true;
        }
        i += 1;
    }
    false
}

} // verus!
