use vstd::prelude::*;
use crate::config::ScanConfig;
use crate::matcher::{pattern_hit, pattern_hits};
use crate::text::{contains_text, holds_text, is_prefix, same_text, starts_with_text};

verus! {

/// The final component of path `p`, as `std::path::Path::file_name` gives it.
pub uninterp spec fn path_file_name(p: Seq<char>) -> Option<Seq<char>>;

/// The extension of path `p`, as `std::path::Path::extension` gives it.
pub uninterp spec fn path_extension(p: Seq<char>) -> Option<Seq<char>>;

/// The file name of path `p` without its extension, as
/// `std::path::Path::file_stem` gives it.
pub uninterp spec fn path_file_stem(p: Seq<char>) -> Option<Seq<char>>;

/// Relies on std::path::Path::file_name: the last component of the path.
#[verifier::external_body]
fn file_name_of(p: &str) -> (r: Option<String>)
    ensures
        opt_text(r) == path_file_name(p@),
{
    match std::path::Path::new(p).file_name() {
        None => None,
        Some(n) => match n.to_str() {
            None => None,
            Some(s) => Some(s.to_owned()),
        },
    }
}

/// Relies on std::path::Path::extension: the text after the last dot of the
/// file name.
#[verifier::external_body]
fn extension_of(p: &str) -> (r: Option<String>)
    ensures
        opt_text(r) == path_extension(p@),
{
    match std::path::Path::new(p).extension() {
        None => None,
        Some(n) => match n.to_str() {
            None => None,
            Some(s) => Some(s.to_owned()),
        },
    }
}

/// Relies on std::path::Path::file_stem: the file name without its extension.
#[verifier::external_body]
fn file_stem_of(p: &str) -> (r: Option<String>)
    ensures
        opt_text(r) == path_file_stem(p@),
{
    match std::path::Path::new(p).file_stem() {
        None => None,
        Some(n) => match n.to_str() {
            None => None,
            Some(s) => Some(s.to_owned()),
        },
    }
}

pub open spec fn opt_text(o: Option<String>) -> Option<Seq<char>> {
    match o {
        None => None,
        Some(s) => Some(s@),
    }
}

/// Extensions of the text files that a scan reads.
pub open spec fn supported_extensions() -> Seq<Seq<char>> {
    seq![
        "py"@, "js"@, "ts"@, "rs"@, "go"@, "java"@, "c"@, "cpp"@, "h"@, "hpp"@, "cs"@,
        "rb"@, "php"@, "swift"@, "kt"@, "scala"@, "sh"@, "bash"@, "zsh"@, "fish"@,
        "md"@, "txt"@, "rst"@, "toml"@, "yaml"@, "yml"@, "json"@, "xml"@, "html"@,
        "css"@, "scss"@, "less"@, "sql"@, "r"@, "matlab"@, "lua"@,
    ]
}

/// File stems read whatever their extension: build and container files.
pub open spec fn special_stem(stem: Seq<char>) -> bool {
    is_prefix("Makefile"@, stem) || stem == "Dockerfile"@ || is_prefix("Jenkinsfile"@, stem)
}

/// Whether the path names a file kind that a scan reads.
pub open spec fn eligible_path(p: Seq<char>) -> bool {
    (path_extension(p) matches Some(e) && supported_extensions().contains(e)) || (path_file_stem(
        p,
    ) matches Some(s) && special_stem(s))
}

pub open spec fn texts(v: Seq<String>) -> Seq<Seq<char>> {
    v.map_values(|s: String| s@)
}

/// Whether some pattern of `patterns` hits path `p`.
pub open spec fn any_pattern_hits(patterns: Seq<Seq<char>>, p: Seq<char>) -> bool {
    exists|i: int| 0 <= i < patterns.len() && pattern_hit(#[trigger] patterns[i], p)
}

/// The decision of the file filter on a file path.
pub open spec fn admits(config: ScanConfig, p: Seq<char>) -> bool {
    &&& eligible_path(p)
    &&& !any_pattern_hits(texts(config.exclude_patterns@), p)
    &&& (config.include_patterns@.len() == 0 || any_pattern_hits(
        texts(config.include_patterns@),
        p,
    ))
}

/// A name that the ignore heuristic skips: hidden, or holding `node_modules`.
pub open spec fn hidden_or_dependency_name(n: Seq<char>) -> bool {
    is_prefix("."@, n) || holds_text(n, "node_modules"@)
}

/// Whether a walk prunes the entry at path `p`: a `.git` entry always, and,
/// where the ignore heuristic is on and the parent directory holds a
/// `.gitignore` file, a hidden name or one holding `node_modules`.
pub open spec fn ignored(config: ScanConfig, p: Seq<char>, parent_has_gitignore: bool) -> bool {
    match path_file_name(p) {
        None => false,
        Some(n) => n == ".git"@ || (config.respect_gitignore && parent_has_gitignore
            && hidden_or_dependency_name(n)),
    }
}

/// Whether `e` is one of the supported extensions.
pub fn is_supported_extension(e: &str) -> (r: bool)
    ensures
        r == supported_extensions().contains(e@),
{
    let exts = vec![
        "py", "js", "ts", "rs", "go", "java", "c", "cpp", "h", "hpp", "cs",
        "rb", "php", "swift", "kt", "scala", "sh", "bash", "zsh", "fish",
        "md", "txt", "rst", "toml", "yaml", "yml", "json", "xml", "html",
        "css", "scss", "less", "sql", "r", "matlab", "lua",
    ];
    assert(exts@.map_values(|s: &str| s@) =~= supported_extensions());
    let mut i: usize = 0;
    while i < exts.len()
        invariant
            i <= exts@.len(),
            exts@.map_values(|s: &str| s@) == supported_extensions(),
            forall|k: int| 0 <= k < i ==> supported_extensions()[k] != e@,
        decreases exts@.len() - i,
    {
        assert(exts@.map_values(|s: &str| s@)[i as int] == exts@[i as int]@);
        if same_text(exts[i], e) {
            return true;
        }
        i = i + 1;
    }
    false
}

/// Whether some pattern of `patterns` hits `path`.
fn hits_any(patterns: &Vec<String>, path: &str) -> (r: bool)
    ensures
        r == any_pattern_hits(texts(patterns@), path@),
{
    let mut i: usize = 0;
    while i < patterns.len()
        invariant
            i <= patterns@.len(),
            forall|k: int| 0 <= k < i ==> !pattern_hit(#[trigger] texts(patterns@)[k], path@),
        decreases patterns@.len() - i,
    {
        if pattern_hits(patterns[i].as_str(), path) {
            assert(texts(patterns@)[i as int] == patterns@[i as int]@);
            return true;
        }
        i = i + 1;
    }
    false
}

impl ScanConfig {
    /// Whether a walk skips the entry at `path` and everything beneath it.
    /// `parent_has_gitignore` tells whether the entry's parent directory holds
    /// a `.gitignore` file.
    pub fn is_ignored(&self, path: &str, parent_has_gitignore: bool) -> (r: bool)
        ensures
            r == ignored(*self, path@, parent_has_gitignore),
            path_file_name(path@) == Some(".git"@) ==> r,
    {
        let name = file_name_of(path);
        match name {
            None => false,
            Some(n) => {
                if same_text(n.as_str(), ".git") {
                    return true;
                }
                self.respect_gitignore && parent_has_gitignore && (starts_with_text(
                    n.as_str(),
                    ".",
                ) || contains_text(n.as_str(), "node_modules"))
            },
        }
    }

    /// Whether the file at `path` is scanned: its kind is supported, no
    /// exclude pattern hits it, and some include pattern does, when any is set.
    pub fn should_scan_file(&self, path: &str) -> (r: bool)
        ensures
            r == admits(*self, path@),
    {
        let by_extension = match extension_of(path) {
            Some(e) => is_supported_extension(e.as_str()),
            None => false,
        };
        let eligible = by_extension || match file_stem_of(path) {
            Some(s) => starts_with_text(s.as_str(), "Makefile") || same_text(
                s.as_str(),
                "Dockerfile",
            ) || starts_with_text(s.as_str(), "Jenkinsfile"),
            None => false,
        };
        if !eligible {
            return false;
        }
        if hits_any(&self.exclude_patterns, path) {
            return false;
        }
        if self.include_patterns.len() == 0 {
            return true;
        }
        hits_any(&self.include_patterns, path)
    }
}

/// What a directory walk does with one entry.
#[derive(Debug, Clone, Copy, PartialEq, Eq)]
pub enum WalkStep {
    /// Skip the entry and, for a directory, everything beneath it.
    Prune,
    /// Go on without scanning the entry; a directory is still entered.
    Pass,
    /// Scan the entry, a file.
    Scan,
}

impl ScanConfig {
    /// The walk's decision on the entry at `path`. `parent_has_gitignore`
    /// tells whether its parent directory holds a `.gitignore` file, and
    /// `is_file` whether the entry is a regular file.
    pub fn walk_step(&self, path: &str, parent_has_gitignore: bool, is_file: bool) -> (r: WalkStep)
        ensures
            r == WalkStep::Prune <==> ignored(*self, path@, parent_has_gitignore),
            r == WalkStep::Scan <==> !ignored(*self, path@, parent_has_gitignore) && is_file
                && admits(*self, path@),
    {
        if self.is_ignored(path, parent_has_gitignore) {
            WalkStep::Prune
        } else if is_file && self.should_scan_file(path) {
            WalkStep::Scan
        } else {
            WalkStep::Pass
        }
    }
}

} // verus!
