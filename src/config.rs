use vstd::prelude::*;

verus! {

/// Largest file, in bytes, that a default scan reads.
pub const DEFAULT_MAX_FILE_SIZE: usize = 10 * 1024 * 1024;

/// Settings of one scan run.
#[derive(Debug, Clone)]
pub struct ScanConfig {
    /// Marker keywords, matched as whole words without regard to case.
    pub keywords: Vec<String>,
    /// When not empty, only paths holding one of these are scanned.
    pub include_patterns: Vec<String>,
    /// Paths holding one of these are never scanned.
    pub exclude_patterns: Vec<String>,
    /// When positive, each entry carries a context string.
    pub context_lines: usize,
    /// Whether the name-based ignore heuristic is applied.
    pub respect_gitignore: bool,
    /// Files larger than this many bytes are skipped.
    pub max_file_size: usize,
}

impl Default for ScanConfig {
    fn default() -> (r: Self)
        ensures
            r.keywords@.len() == 2,
            r.keywords@[0]@ == seq!['T', 'O', 'D', 'O'],
            r.keywords@[1]@ == seq!['F', 'I', 'X', 'M', 'E'],
            r.include_patterns@.len() == 0,
            r.exclude_patterns@.len() == 0,
            r.context_lines == 0,
            r.respect_gitignore,
            r.max_file_size == DEFAULT_MAX_FILE_SIZE,
    {
        let todo = "TODO".to_owned();
        let fixme = "FIXME".to_owned();
        proof {
            reveal_strlit("TODO");
            reveal_strlit("FIXME");
        }
        ScanConfig {
            keywords: vec![todo, fixme],
            include_patterns: Vec::new(),
            exclude_patterns: Vec::new(),
            context_lines: 0,
            respect_gitignore: true,
            max_file_size: DEFAULT_MAX_FILE_SIZE,
        }
    }
}

} // verus!
