//! Languages the analysis knows, how a file's language is told from its path,
//! and which files and directories a scan looks at.
use vstd::prelude::*;

use crate::text::{from_chars, opt_view, string_views, to_chars, trim_start_char, trim_start_char_exec};

verus! {

/// A language with a syntax-tree analysis.
#[derive(Clone, Copy, Debug, PartialEq, Eq, Structural)]
pub enum LanguageKind {
    Rust,
    JavaScript,
    TypeScript,
    Tsx,
    Python,
    Go,
    Vue,
}

/// The language named by a file extension.
pub open spec fn language_of_extension(ext: Seq<char>) -> Option<LanguageKind> {
    if ext == "rs"@ {
        Some(LanguageKind::Rust)
    } else if ext == "js"@ || ext == "jsx"@ {
        Some(LanguageKind::JavaScript)
    } else if ext == "ts"@ {
        Some(LanguageKind::TypeScript)
    } else if ext == "tsx"@ {
        Some(LanguageKind::Tsx)
    } else if ext == "py"@ {
        Some(LanguageKind::Python)
    } else if ext == "go"@ {
        Some(LanguageKind::Go)
    } else if ext == "vue"@ {
        Some(LanguageKind::Vue)
    } else {
        None
    }
}

/// The extension of a path, as `std::path::Path::extension` reads it.
pub uninterp spec fn path_extension_spec(path: Seq<char>) -> Option<Seq<char>>;

/// `std::path::Path::extension`: the part of the file name after its last
/// `.`, when there is one. The contract names the result
/// `path_extension_spec(path)`; how file names are read from paths is not
/// stated.
#[verifier::external_body]
fn path_extension(path: &str) -> (r: Option<String>)
    ensures
        opt_view(r) == path_extension_spec(path@),
{
    std::path::Path::new(path).extension().and_then(|e| e.to_str()).map(|e| e.to_string())
}

/// The language of a path, from its extension.
pub open spec fn language_of_path(path: Seq<char>) -> Option<LanguageKind> {
    match path_extension_spec(path) {
        Some(ext) => language_of_extension(ext),
        None => None,
    }
}

/// The name by which a language is reported.
pub open spec fn language_name(lang: LanguageKind) -> Seq<char> {
    match lang {
        LanguageKind::Rust => "rust"@,
        LanguageKind::JavaScript => "javascript"@,
        LanguageKind::TypeScript => "typescript"@,
        LanguageKind::Tsx => "tsx"@,
        LanguageKind::Python => "python"@,
        LanguageKind::Go => "go"@,
        LanguageKind::Vue => "vue"@,
    }
}

impl LanguageKind {
    /// The language named by an extension (`"rs"`, `"js"`, `"jsx"`, `"ts"`,
    /// `"tsx"`, `"py"`, `"go"` or `"vue"`).
    pub fn from_extension_name(ext: &str) -> (r: Option<LanguageKind>)
        ensures
            r == language_of_extension(ext@),
    {
        let e = String::from_str(ext);
        if e == String::from_str("rs") {
            Some(LanguageKind::Rust)
        } else if e == String::from_str("js") || e == String::from_str("jsx") {
            Some(LanguageKind::JavaScript)
        } else if e == String::from_str("ts") {
            Some(LanguageKind::TypeScript)
        } else if e == String::from_str("tsx") {
            Some(LanguageKind::Tsx)
        } else if e == String::from_str("py") {
            Some(LanguageKind::Python)
        } else if e == String::from_str("go") {
            Some(LanguageKind::Go)
        } else if e == String::from_str("vue") {
            Some(LanguageKind::Vue)
        } else {
            None
        }
    }

    /// The language of a file, from the extension of its path.
    pub fn from_extension(path: &str) -> (r: Option<LanguageKind>)
        ensures
            r == language_of_path(path@),
    {
        match path_extension(path) {
            Some(ext) => LanguageKind::from_extension_name(ext.as_str()),
            None => None,
        }
    }

    /// The name by which the language is reported.
    pub fn as_str(self) -> (r: &'static str)
        ensures
            r@ == language_name(self),
    {
        match self {
            LanguageKind::Rust => "rust",
            LanguageKind::JavaScript => "javascript",
            LanguageKind::TypeScript => "typescript",
            LanguageKind::Tsx => "tsx",
            LanguageKind::Python => "python",
            LanguageKind::Go => "go",
            LanguageKind::Vue => "vue",
        }
    }
}

/// Whether the syntax tree of a file was read.
#[derive(Clone, Copy, Debug, PartialEq, Eq, Structural)]
pub enum ParseStatus {
    Parsed,
    Unsupported,
    ParseError,
}

pub open spec fn parse_status_name(s: ParseStatus) -> Seq<char> {
    match s {
        ParseStatus::Parsed => "parsed"@,
        ParseStatus::Unsupported => "unsupported"@,
        ParseStatus::ParseError => "parse_error"@,
    }
}

impl ParseStatus {
    /// The name by which the status is reported.
    pub fn as_str(self) -> (r: &'static str)
        ensures
            r@ == parse_status_name(self),
    {
        match self {
            ParseStatus::Parsed => "parsed",
            ParseStatus::Unsupported => "unsupported",
            ParseStatus::ParseError => "parse_error",
        }
    }
}

/// Whether a path's extension is one of the scanned extensions.
pub open spec fn is_code_file_spec(path: Seq<char>, extensions: Seq<Seq<char>>) -> bool {
    match path_extension_spec(path) {
        Some(ext) => extensions.contains(ext),
        None => false,
    }
}

/// Whether some string in `v` equals `x`.
pub fn contains_str(v: &Vec<String>, x: &str) -> (r: bool)
    ensures
        r == string_views(v@).contains(x@),
{
    let target = String::from_str(x);
    let n = v.len();
    for i in 0..n
        invariant
            n == v@.len(),
            target@ == x@,
            forall|j: int| 0 <= j < i ==> v@[j]@ != x@,
    {
        if v[i] == target {
            assert(string_views(v@)[i as int] == x@);
            return true;
        }
    }
    proof {
        if string_views(v@).contains(x@) {
            let j = choose|j: int| 0 <= j < string_views(v@).len() && string_views(v@)[j] == x@;
            assert(v@[j]@ == x@);
        }
    }
    false
}

/// Whether a file is scanned: its extension is one of `extensions`.
pub fn is_code_file(path: &str, extensions: &Vec<String>) -> (r: bool)
    ensures
        r == is_code_file_spec(path@, string_views(extensions@)),
{
    match path_extension(path) {
        Some(ext) => contains_str(extensions, ext.as_str()),
        None => false,
    }
}

/// Whether a directory entry is walked into: the scan root always is, other
/// entries when their name is not excluded.
pub fn keep_entry(depth: usize, name: &str, excludes: &Vec<String>) -> (r: bool)
    ensures
        r == (depth == 0 || !string_views(excludes@).contains(name@)),
{
    if depth == 0 {
        return true;
    }
    !contains_str(excludes, name)
}

/// The extensions a scan looks at when none are given.
pub open spec fn default_extensions() -> Seq<Seq<char>> {
    seq![
        "rs"@, "go"@, "js"@, "jsx"@, "ts"@, "tsx"@, "py"@, "vue"@, "java"@, "kt"@, "swift"@,
        "rb"@, "php"@, "c"@, "cc"@, "cpp"@, "h"@, "hpp"@, "cs"@, "scala"@, "sql"@, "sh"@, "lua"@,
    ]
}

/// The directory names a scan never walks into.
pub open spec fn default_excludes() -> Seq<Seq<char>> {
    seq![
        ".git"@, "node_modules"@, "target"@, "dist"@, "build"@, "vendor"@, ".next"@, ".turbo"@,
    ]
}

/// The extensions to scan: the given ones without their leading dots, or the
/// defaults when none are given.
pub fn scan_extensions(given: &Vec<String>) -> (r: Vec<String>)
    ensures
        given@.len() == 0 ==> string_views(r@) == default_extensions(),
        given@.len() > 0 ==> string_views(r@) == string_views(given@).map_values(
            |e: Seq<char>| trim_start_char(e, '.'),
        ),
{
    let mut out: Vec<String> = Vec::new();
    if given.len() == 0 {
        out.push(String::from_str("rs"));
        out.push(String::from_str("go"));
        out.push(String::from_str("js"));
        out.push(String::from_str("jsx"));
        out.push(String::from_str("ts"));
        out.push(String::from_str("tsx"));
        out.push(String::from_str("py"));
        out.push(String::from_str("vue"));
        out.push(String::from_str("java"));
        out.push(String::from_str("kt"));
        out.push(String::from_str("swift"));
        out.push(String::from_str("rb"));
        out.push(String::from_str("php"));
        out.push(String::from_str("c"));
        out.push(String::from_str("cc"));
        out.push(String::from_str("cpp"));
        out.push(String::from_str("h"));
        out.push(String::from_str("hpp"));
        out.push(String::from_str("cs"));
        out.push(String::from_str("scala"));
        out.push(String::from_str("sql"));
        out.push(String::from_str("sh"));
        out.push(String::from_str("lua"));
        assert(string_views(out@) =~= default_extensions());
        return out;
    }
    let n = given.len();
    for i in 0..n
        invariant
            n == given@.len(),
            string_views(out@) == string_views(given@).take(i as int).map_values(
                |e: Seq<char>| trim_start_char(e, '.'),
            ),
    {
        let chars = to_chars(given[i].as_str());
        let trimmed = trim_start_char_exec(chars.as_slice(), '.');
        let ghost before_push = string_views(out@);
        out.push(from_chars(trimmed.as_slice()));
        assert(string_views(out@) =~= before_push.push(trim_start_char(given@[i as int]@, '.')));
        assert(string_views(given@).take(i + 1).map_values(|e: Seq<char>| trim_start_char(e, '.'))
            =~= string_views(given@).take(i as int).map_values(
            |e: Seq<char>| trim_start_char(e, '.'),
        ).push(trim_start_char(given@[i as int]@, '.')));
    }
    assert(string_views(given@).take(n as int) =~= string_views(given@));
    out
}

/// The directory names to leave out: the defaults and then the given ones.
pub fn scan_excludes(given: &Vec<String>) -> (r: Vec<String>)
    ensures
        string_views(r@) == default_excludes() + string_views(given@),
{
    let mut out: Vec<String> = Vec::new();
    out.push(String::from_str(".git"));
    out.push(String::from_str("node_modules"));
    out.push(String::from_str("target"));
    out.push(String::from_str("dist"));
    out.push(String::from_str("build"));
    out.push(String::from_str("vendor"));
    out.push(String::from_str(".next"));
    out.push(String::from_str(".turbo"));
    assert(string_views(out@) =~= default_excludes());
    let n = given.len();
    for i in 0..n
        invariant
            n == given@.len(),
            string_views(out@) == default_excludes() + string_views(given@).take(i as int),
    {
        let ghost before_push = string_views(out@);
        out.push(given[i].clone());
        assert(string_views(out@) =~= before_push.push(given@[i as int]@));
        assert(string_views(given@).take(i + 1) =~= string_views(given@).take(i as int).push(
            given@[i as int]@,
        ));
    }
    assert(string_views(given@).take(n as int) =~= string_views(given@));
    out
}

} // verus!
