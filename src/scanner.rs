use vstd::prelude::*;
use crate::config::ScanConfig;
use crate::entry::{models, EntryModel, TodoEntry};
use crate::error::ScanError;
use crate::filter::texts;
use crate::matcher::{
    build_keyword_pattern, compile_pattern, keyword_pattern, pattern_first_group,
    regex_compiles, regex_first_group, Pattern,
};

verus! {

/// Whether `c` is white space in Unicode's sense (property `White_Space`).
pub open spec fn is_white_space(c: char) -> bool {
    let u = c as u32;
    (9 <= u <= 13) || u == 32 || u == 0x85 || u == 0xa0 || u == 0x1680 || (0x2000 <= u
        <= 0x200a) || u == 0x2028 || u == 0x2029 || u == 0x202f || u == 0x205f || u == 0x3000
}

/// How many white-space characters `s` starts with.
pub open spec fn leading_space(s: Seq<char>) -> nat
    decreases s.len(),
{
    if s.len() > 0 && is_white_space(s[0]) {
        1 + leading_space(s.subrange(1, s.len() as int))
    } else {
        0
    }
}

/// How many white-space characters `s` ends with.
pub open spec fn trailing_space(s: Seq<char>) -> nat
    decreases s.len(),
{
    if s.len() > 0 && is_white_space(s.last()) {
        1 + trailing_space(s.drop_last())
    } else {
        0
    }
}

/// `s` without its leading and trailing white space.
pub open spec fn trimmed(s: Seq<char>) -> Seq<char> {
    let rest = s.subrange(leading_space(s) as int, s.len() as int);
    rest.subrange(0, rest.len() - trailing_space(rest))
}

/// Relies on str::trim: the text with leading and trailing white space removed.
#[verifier::external_body]
fn trim_text(s: &str) -> (r: &str)
    ensures
        r@ == trimmed(s@),
{
    s.trim()
}

/// The entry that line `n` of the file at `path` gives, if any: a line that is
/// blank once trimmed gives none; any other gives one where the keyword pattern
/// `pattern` matches it.
pub open spec fn line_entry(
    pattern: Seq<char>,
    with_context: bool,
    path: Seq<char>,
    n: nat,
    line: Seq<char>,
) -> Option<EntryModel> {
    if trimmed(line).len() == 0 {
        None
    } else {
        match regex_first_group(pattern, line) {
            None => None,
            Some(group) => Some(
                EntryModel {
                    file_path: path,
                    line_number: n,
                    keyword: match group {
                        Some(k) => k,
                        None => Seq::empty(),
                    },
                    text: trimmed(line),
                    context: if with_context {
                        Some(line)
                    } else {
                        None
                    },
                },
            ),
        }
    }
}

pub open spec fn optional(e: Option<EntryModel>) -> Seq<EntryModel> {
    match e {
        None => Seq::empty(),
        Some(m) => seq![m],
    }
}

/// The entries of a file whose lines are `lines`, in line order.
pub open spec fn file_entries(
    pattern: Seq<char>,
    with_context: bool,
    path: Seq<char>,
    lines: Seq<Seq<char>>,
) -> Seq<EntryModel>
    decreases lines.len(),
{
    if lines.len() == 0 {
        Seq::empty()
    } else {
        file_entries(pattern, with_context, path, lines.drop_last()) + optional(
            line_entry(pattern, with_context, path, lines.len(), lines.last()),
        )
    }
}

/// A file whose lines are being read, one after the other.
pub struct FileScan {
    /// The path that the entries name.
    pub path: String,
    /// How many lines were read so far.
    pub lines_read: usize,
    /// The entries found so far, in line order.
    pub entries: Vec<TodoEntry>,
}

/// A scanner: a configuration and its compiled keyword pattern.
pub struct TodoScanner {
    config: ScanConfig,
    keyword_regex: Pattern,
}

impl TodoScanner {
    #[verifier::type_invariant]
    spec fn pattern_of_config(self) -> bool {
        self.keyword_regex.source() == keyword_pattern(texts(self.config.keywords@))
    }

    /// The configuration that the scanner was made with.
    pub closed spec fn spec_config(self) -> ScanConfig {
        self.config
    }

    /// The keyword pattern: `(?i)\b(k1|k2|...)\b` with each keyword escaped.
    pub open spec fn spec_pattern(self) -> Seq<char> {
        keyword_pattern(texts(self.spec_config().keywords@))
    }

    /// Makes a scanner, compiling the keyword pattern once.
    pub fn new(config: ScanConfig) -> (r: Result<Self, ScanError>)
        ensures
            r is Ok <==> regex_compiles(keyword_pattern(texts(config.keywords@))),
            r matches Ok(s) ==> s.spec_config() == config,
            r matches Err(e) ==> e == ScanError::Config,
    {
        let source = build_keyword_pattern(&config.keywords);
        assert(texts(config.keywords@) == config.keywords@.map_values(|k: String| k@));
        match compile_pattern(source) {
            Ok(keyword_regex) => Ok(TodoScanner { config, keyword_regex }),
            Err(_) => Err(ScanError::Config),
        }
    }

    /// Makes a scanner with the default configuration.
    pub fn default_scanner() -> (r: Result<Self, ScanError>)
        ensures
            r is Ok <==> regex_compiles(
                keyword_pattern(seq![seq!['T', 'O', 'D', 'O'], seq!['F', 'I', 'X', 'M', 'E']]),
            ),
            r matches Ok(s) ==> s.spec_config().keywords@.len() == 2 && s.spec_pattern()
                == keyword_pattern(seq![seq!['T', 'O', 'D', 'O'], seq!['F', 'I', 'X', 'M', 'E']]),
            r matches Err(e) ==> e == ScanError::Config,
    {
        let config = ScanConfig::default();
        assert(texts(config.keywords@) =~= seq![
            seq!['T', 'O', 'D', 'O'],
            seq!['F', 'I', 'X', 'M', 'E'],
        ]);
        Self::new(config)
    }

    /// The configuration that the scanner was made with.
    pub fn config(&self) -> (r: &ScanConfig)
        ensures
            *r == self.spec_config(),
    {
        &self.config
    }

    /// Whether a file is read at all: it must be a regular file of at most
    /// `max_file_size` bytes. Other files give no entries and no error.
    pub fn file_fits(&self, is_file: bool, size: u64) -> (r: bool)
        ensures
            r == (is_file && size as int <= self.spec_config().max_file_size as int),
    {
        is_file && size as u128 <= self.config.max_file_size as u128
    }

    /// The entry that line `line_number` of the file at `path` gives, if any.
    pub fn scan_line(&self, path: &str, line_number: usize, line: &str) -> (r: Option<TodoEntry>)
        ensures
            match r {
                None => line_entry(
                    self.spec_pattern(),
                    self.spec_config().context_lines > 0,
                    path@,
                    line_number as nat,
                    line@,
                ) is None,
                Some(e) => line_entry(
                    self.spec_pattern(),
                    self.spec_config().context_lines > 0,
                    path@,
                    line_number as nat,
                    line@,
                ) == Some(e@),
            },
    {
        proof {
            use_type_invariant(self);
        }
        let text = trim_text(line);
        if text.is_empty() {
            return None;
        }
        match pattern_first_group(&self.keyword_regex, line) {
            None => None,
            Some(group) => {
                let keyword = match group {
                    Some(k) => k,
                    None => String::new(),
                };
                let entry = TodoEntry::new(path, line_number, keyword.as_str(), text);
                if self.config.context_lines > 0 {
                    Some(entry.with_context(line))
                } else {
                    Some(entry)
                }
            },
        }
    }

    /// Starts reading the file at `path`.
    pub fn start_file(&self, path: &str) -> (r: FileScan)
        ensures
            r.path@ == path@,
            r.lines_read == 0,
            r.entries@.len() == 0,
    {
        FileScan { path: path.to_owned(), lines_read: 0, entries: Vec::new() }
    }

    /// Reads the next line of a file.
    pub fn feed_line(&self, scan: &mut FileScan, line: &str)
        requires
            old(scan).lines_read < usize::MAX,
        ensures
            final(scan).path == old(scan).path,
            final(scan).lines_read == old(scan).lines_read + 1,
            models(final(scan).entries@) == models(old(scan).entries@) + optional(
                line_entry(
                    self.spec_pattern(),
                    self.spec_config().context_lines > 0,
                    old(scan).path@,
                    final(scan).lines_read as nat,
                    line@,
                ),
            ),
    {
        let n = scan.lines_read + 1;
        let found = self.scan_line(scan.path.as_str(), n, line);
        scan.lines_read = n;
        match found {
            None => {
                assert(models(scan.entries@) =~= models(old(scan).entries@) + Seq::empty());
            },
            Some(e) => {
                scan.entries.push(e);
                assert(models(scan.entries@) =~= models(old(scan).entries@) + seq![e@]);
            },
        }
    }

    /// Scans the lines of the file at `path`, numbering them from 1.
    pub fn scan_lines(&self, path: &str, lines: &Vec<String>) -> (r: Vec<TodoEntry>)
        ensures
            models(r@) == file_entries(
                self.spec_pattern(),
                self.spec_config().context_lines > 0,
                path@,
                texts(lines@),
            ),
    {
        let mut scan = self.start_file(path);
        let mut i: usize = 0;
        while i < lines.len()
            invariant
                i <= lines@.len(),
                scan.lines_read == i,
                scan.path@ == path@,
                models(scan.entries@) == file_entries(
                    self.spec_pattern(),
                    self.spec_config().context_lines > 0,
                    path@,
                    texts(lines@).subrange(0, i as int),
                ),
            decreases lines@.len() - i,
        {
            self.feed_line(&mut scan, lines[i].as_str());
            proof {
                let pre = texts(lines@).subrange(0, i + 1);
                assert(pre.drop_last() =~= texts(lines@).subrange(0, i as int));
                assert(pre.last() == lines@[i as int]@);
            }
            i = i + 1;
        }
        assert(texts(lines@).subrange(0, i as int) =~= texts(lines@));
        scan.entries
    }

    /// Scans a file that was read as `lines`: nothing when it is not a regular
    /// file or is larger than `max_file_size` bytes.
    pub fn scan_file_contents(
        &self,
        path: &str,
        is_file: bool,
        size: u64,
        lines: &Vec<String>,
    ) -> (r: Vec<TodoEntry>)
        ensures
            size as int > self.spec_config().max_file_size as int ==> r@.len() == 0,
            models(r@) == if is_file && size as int <= self.spec_config().max_file_size as int {
                file_entries(
                    self.spec_pattern(),
                    self.spec_config().context_lines > 0,
                    path@,
                    texts(lines@),
                )
            } else {
                Seq::empty()
            },
    {
        if !self.file_fits(is_file, size) {
            let empty: Vec<TodoEntry> = Vec::new();
            assert(models(empty@) =~= Seq::empty());
            return empty;
        }
        self.scan_lines(path, lines)
    }
}

} // verus!
