//! Decides which discovered paths take part in the document: ignored
//! file names, include and exclude glob patterns, and the text allow-lists.

use crate::text::{extension, extension_of, file_name, file_name_of, is_one_of, lower_of, lowercase, texts};
use vstd::prelude::*;

verus! {

/// Whether the glob pattern, compiled by the `glob` crate, matches the path;
/// a pattern that does not compile matches nothing.
pub uninterp spec fn glob_matches(pattern: Seq<char>, path: Seq<char>) -> bool;

/// Relies on `glob::Pattern::new` to compile the pattern and on
/// `glob::Pattern::matches` to test the path; a compile error counts as no match.
#[verifier::external_body]
fn glob_match(pattern: &str, path: &str) -> (r: bool)
    ensures
        r == glob_matches(pattern@, path@),
{
    glob::Pattern::new(pattern).map(|p| p.matches(path)).unwrap_or(false)
}

/// Extensions (in lower case) of files that are read as text.
pub open spec fn text_extensions() -> Seq<Seq<char>> {
    seq![
        "rs"@,
        "go"@,
        "js"@,
        "ts"@,
        "svelte"@,
        "py"@,
        "java"@,
        "cpp"@,
        "c"@,
        "h"@,
        "hpp"@,
        "cs"@,
        "php"@,
        "rb"@,
        "swift"@,
        "kt"@,
        "scala"@,
        "clj"@,
        "hs"@,
        "ml"@,
        "fs"@,
        "dart"@,
        "nim"@,
        "zig"@,
        "v"@,
        "odin"@,
        "txt"@,
        "md"@,
        "rst"@,
        "toml"@,
        "yaml"@,
        "yml"@,
        "json"@,
        "xml"@,
        "html"@,
        "css"@,
        "scss"@,
        "sass"@,
        "less"@,
        "sql"@,
        "sh"@,
        "bash"@,
        "zsh"@,
        "fish"@,
        "ps1"@,
        "psm1"@,
        "psd1"@,
        "bat"@,
        "cmd"@,
        "dockerfile"@,
        "gitignore"@,
        "gitattributes"@,
        "editorconfig"@,
    ]
}

/// Names (in lower case) of extensionless files that are read as text.
pub open spec fn text_filenames() -> Seq<Seq<char>> {
    seq![
        "dockerfile"@,
        "makefile"@,
        "rakefile"@,
        "gemfile"@,
        "procfile"@,
        "justfile"@,
        "taskfile"@,
    ]
}

/// File names that are never included: lock files and the default output file.
pub open spec fn ignored_filenames() -> Seq<Seq<char>> {
    seq![
        "package-lock.json"@,
        "yarn.lock"@,
        "pnpm-lock.yaml"@,
        "bun.lockb"@,
        "npm-shrinkwrap.json"@,
        "cargo.lock"@,
        "pipfile.lock"@,
        "poetry.lock"@,
        "pdm.lock"@,
        "composer.lock"@,
        "gemfile.lock"@,
        "go.sum"@,
        "packages.lock.json"@,
        "gradle.lockfile"@,
        "flatten.md"@,
    ]
}

fn text_extension_list() -> (r: Vec<&'static str>)
    ensures
        r@.map_values(|w: &str| w@) == text_extensions(),
{
    let r = vec![
        "rs",
        "go",
        "js",
        "ts",
        "svelte",
        "py",
        "java",
        "cpp",
        "c",
        "h",
        "hpp",
        "cs",
        "php",
        "rb",
        "swift",
        "kt",
        "scala",
        "clj",
        "hs",
        "ml",
        "fs",
        "dart",
        "nim",
        "zig",
        "v",
        "odin",
        "txt",
        "md",
        "rst",
        "toml",
        "yaml",
        "yml",
        "json",
        "xml",
        "html",
        "css",
        "scss",
        "sass",
        "less",
        "sql",
        "sh",
        "bash",
        "zsh",
        "fish",
        "ps1",
        "psm1",
        "psd1",
        "bat",
        "cmd",
        "dockerfile",
        "gitignore",
        "gitattributes",
        "editorconfig",
    ];
    assert(r@.map_values(|w: &str| w@) =~= text_extensions());
    r
}

fn text_filename_list() -> (r: Vec<&'static str>)
    ensures
        r@.map_values(|w: &str| w@) == text_filenames(),
{
    let r = vec![
        "dockerfile",
        "makefile",
        "rakefile",
        "gemfile",
        "procfile",
        "justfile",
        "taskfile",
    ];
    assert(r@.map_values(|w: &str| w@) =~= text_filenames());
    r
}

fn ignored_filename_list() -> (r: Vec<&'static str>)
    ensures
        r@.map_values(|w: &str| w@) == ignored_filenames(),
{
    let r = vec![
        "package-lock.json",
        "yarn.lock",
        "pnpm-lock.yaml",
        "bun.lockb",
        "npm-shrinkwrap.json",
        "cargo.lock",
        "pipfile.lock",
        "poetry.lock",
        "pdm.lock",
        "composer.lock",
        "gemfile.lock",
        "go.sum",
        "packages.lock.json",
        "gradle.lockfile",
        "flatten.md",
    ];
    assert(r@.map_values(|w: &str| w@) =~= ignored_filenames());
    r
}

/// Whether some pattern of the list matches the path.
pub open spec fn matches_any(patterns: Seq<Seq<char>>, path: Seq<char>) -> bool {
    exists|k: int| 0 <= k < patterns.len() && #[trigger] glob_matches(patterns[k], path)
}

/// Whether the path's file name is one that is never included.
pub open spec fn has_ignored_name(path: Seq<char>) -> bool {
    match file_name_of(path) {
        Some(n) => ignored_filenames().contains(n),
        None => false,
    }
}

/// Whether a path passes the filters: its name is not an ignored one, it
/// matches an include pattern when there are any, and no exclude pattern.
pub open spec fn included(inc: Seq<Seq<char>>, exc: Seq<Seq<char>>, path: Seq<char>) -> bool {
    &&& !has_ignored_name(path)
    &&& (inc.len() == 0 || matches_any(inc, path))
    &&& !matches_any(exc, path)
}

/// Whether a path names a text file: by its extension in lower case, or,
/// without an extension, by its file name in lower case.
pub open spec fn is_text(path: Seq<char>) -> bool {
    match extension_of(path) {
        Some(e) => text_extensions().contains(lower_of(e)),
        None => match file_name_of(path) {
            Some(n) => text_filenames().contains(lower_of(n)),
            None => false,
        },
    }
}

/// The filter configuration: include and exclude glob patterns.
pub struct IgnoreHandler {
    include_patterns: Vec<String>,
    exclude_patterns: Vec<String>,
}

impl IgnoreHandler {
    /// The include patterns.
    pub closed spec fn includes(&self) -> Seq<Seq<char>> {
        texts(self.include_patterns@)
    }

    /// The exclude patterns.
    pub closed spec fn excludes(&self) -> Seq<Seq<char>> {
        texts(self.exclude_patterns@)
    }

    pub fn new(include_patterns: Vec<String>, exclude_patterns: Vec<String>) -> (r: Self)
        ensures
            r.includes() == texts(include_patterns@),
            r.excludes() == texts(exclude_patterns@),
    {
        IgnoreHandler { include_patterns, exclude_patterns }
    }

    /// Whether some pattern of the list matches the path.
    fn any_matches(patterns: &Vec<String>, path: &str) -> (r: bool)
        ensures
            r == matches_any(texts(patterns@), path@),
    {
        let ghost ps = texts(patterns@);
        let mut i: usize = 0;
        while i < patterns.len()
            invariant
                i <= patterns@.len(),
                ps == texts(patterns@),
                forall|k: int| 0 <= k < i ==> !glob_matches(#[trigger] ps[k], path@),
            decreases patterns@.len() - i,
        {
            if glob_match(patterns[i].as_str(), path) {
                assert(glob_matches(ps[i as int], path@));
                return true;
            }
            i = i + 1;
        }
        assert forall|k: int| 0 <= k < ps.len() implies !#[trigger] glob_matches(ps[k], path@) by {
        }
        false
    }

    /// Whether the path passes the ignored-name check and the include and
    /// exclude patterns.
    pub fn should_include_file(&self, path: &str) -> (r: bool)
        ensures
            r == included(self.includes(), self.excludes(), path@),
    {
        if self.is_ignored_filename(path) {
            return false;
        }
        if self.include_patterns.len() > 0 && !Self::any_matches(&self.include_patterns, path) {
            return false;
        }
        !Self::any_matches(&self.exclude_patterns, path)
    }

    /// Whether the path names a text file, by extension or by file name, in
    /// either case.
    pub fn is_text_file(&self, path: &str) -> (r: bool)
        ensures
            r == is_text(path@),
    {
        match extension(path) {
            Some(ext) => {
                let e = lowercase(ext.as_str());
                is_one_of(e.as_str(), &text_extension_list())
            },
            None => match file_name(path) {
                Some(name) => {
                    let n = lowercase(name.as_str());
                    is_one_of(n.as_str(), &text_filename_list())
                },
                None => false,
            },
        }
    }

    /// Whether the path's file name is one that is never included.
    fn is_ignored_filename(&self, path: &str) -> (r: bool)
        ensures
            r == has_ignored_name(path@),
    {
        match file_name(path) {
            Some(name) => is_one_of(name.as_str(), &ignored_filename_list()),
            None => false,
        }
    }
}

/// With a non-empty list of include patterns, a path that matches none of
/// them is left out, whatever the exclude patterns are.
pub proof fn lemma_unmatched_include_excludes(inc: Seq<Seq<char>>, exc: Seq<Seq<char>>, path: Seq<char>)
    requires
        inc.len() > 0,
        !matches_any(inc, path),
    ensures
        !included(inc, exc, path),
{
}

/// A path that matches an exclude pattern is left out, even where it also
/// matches an include pattern.
pub proof fn lemma_exclude_wins(inc: Seq<Seq<char>>, exc: Seq<Seq<char>>, path: Seq<char>)
    requires
        matches_any(exc, path),
    ensures
        !included(inc, exc, path),
{
}

} // verus!
