use std::path::PathBuf;

use todo_scan::matcher::{build_keyword_pattern, build_substring_pattern, pattern_hits};
use todo_scan::render::{render_segments, Style};
use todo_scan::{
    format_results_colored, sort_entries, ScanConfig, ScanError, TodoEntry, TodoScanner, WalkStep,
};

/// Splits file contents into lines the way a buffered reader does.
fn lines_of(content: &str) -> Vec<String> {
    content.lines().map(|l| l.to_string()).collect()
}

/// Scans an in-memory tree under `root`: each file is given by its path
/// relative to the root and its contents. Directories on the way are walked
/// as a directory walk would, pruning what the configuration ignores.
fn scan_tree(scanner: &TodoScanner, root: &str, files: &[(&str, &str)]) -> Vec<TodoEntry> {
    let config = scanner.config();
    let mut found = Vec::new();
    'files: for (rel, content) in files {
        let parts: Vec<&str> = rel.split('/').collect();
        let mut dir = root.to_string();
        if config.walk_step(&dir, false, false) == WalkStep::Prune {
            continue;
        }
        for part in &parts[..parts.len() - 1] {
            dir = format!("{}/{}", dir, part);
            if config.walk_step(&dir, false, false) == WalkStep::Prune {
                continue 'files;
            }
        }
        let path = format!("{}/{}", root, rel);
        if config.walk_step(&path, false, true) != WalkStep::Scan {
            continue;
        }
        let lines = lines_of(content);
        found.extend(scanner.scan_file_contents(&path, true, content.len() as u64, &lines));
    }
    sort_entries(found)
}

#[test]
fn test_todo_entry_creation() {
    let entry = TodoEntry::new("/test/file.rs", 42, "TODO", "Implement feature");
    assert_eq!(PathBuf::from(&entry.file_path), PathBuf::from("/test/file.rs"));
    assert_eq!(entry.line_number, 42);
    assert_eq!(entry.keyword, "TODO");
    assert_eq!(entry.text, "Implement feature");
}

#[test]
fn test_scan_config_default() {
    let config = ScanConfig::default();
    assert_eq!(config.keywords, vec!["TODO", "FIXME"]);
    assert!(config.include_patterns.is_empty());
    assert!(config.exclude_patterns.is_empty());
    assert_eq!(config.max_file_size, 10 * 1024 * 1024);
}

#[test]
fn test_scan_single_file_with_todo() {
    let content =
        "def main():\n    # TODO: Implement main logic\n    pass\n\n# FIXME: This is broken\nx = 1\n";
    let scanner = TodoScanner::default_scanner().unwrap();
    let entries = scanner.scan_file_contents("/tmp/t/test.py", true, content.len() as u64, &lines_of(content));

    assert_eq!(entries.len(), 2);
    assert_eq!(entries[0].keyword, "TODO");
    assert_eq!(entries[0].line_number, 2);
    assert_eq!(entries[1].keyword, "FIXME");
    assert_eq!(entries[1].line_number, 5);
    assert!(entries[0].text.contains("TODO"));
    assert!(entries[1].text.contains("FIXME"));
}

#[test]
fn test_scan_directory_multiple_files() {
    let scanner = TodoScanner::default_scanner().unwrap();
    let entries = scan_tree(
        &scanner,
        "/tmp/t",
        &[
            ("file1.py", "# TODO: First task\nx = 1\n"),
            ("file2.rs", "// FIXME: Fix this\nfn main() {}\n"),
            ("subdir/file3.js", "// TODO: Deep todo\nconst x = 1;\n"),
        ],
    );
    assert_eq!(entries.len(), 3);
}

#[test]
fn test_scan_no_matches() {
    let content = "def clean():\n    pass\n";
    let scanner = TodoScanner::default_scanner().unwrap();
    let entries = scanner.scan_lines("/tmp/t/clean.py", &lines_of(content));
    assert!(entries.is_empty());
}

#[test]
fn test_case_insensitive_keywords() {
    let content = "# todo: lowercase\n# Todo: Title case\n# ToDo: MiXeD\n# FIXME: all caps\n";
    let scanner = TodoScanner::default_scanner().unwrap();
    let entries = scanner.scan_lines("/tmp/t/test.py", &lines_of(content));
    assert_eq!(entries.len(), 4);
}

#[test]
fn test_custom_keywords() {
    let content = "# HACK: workaround\n# NOTE: documentation\n# BUG: known issue\n";
    let config = ScanConfig {
        keywords: vec!["HACK".to_string(), "NOTE".to_string(), "BUG".to_string()],
        ..Default::default()
    };
    let scanner = TodoScanner::new(config).unwrap();
    let entries = scanner.scan_lines("/tmp/t/test.py", &lines_of(content));

    assert_eq!(entries.len(), 3);
    assert!(entries.iter().any(|e| e.keyword == "HACK"));
    assert!(entries.iter().any(|e| e.keyword == "NOTE"));
    assert!(entries.iter().any(|e| e.keyword == "BUG"));
}

#[test]
fn test_exclude_patterns() {
    let config = ScanConfig {
        keywords: vec!["TODO".to_string()],
        exclude_patterns: vec!["exclude".to_string()],
        ..Default::default()
    };
    let scanner = TodoScanner::new(config).unwrap();
    let entries = scan_tree(
        &scanner,
        "/tmp/t",
        &[("include.py", "# TODO: keep me\n"), ("exclude.py", "# TODO: exclude me\n")],
    );
    assert_eq!(entries.len(), 1);
    assert!(entries[0].text.contains("keep me"));
}

#[test]
fn test_include_patterns() {
    let config = ScanConfig {
        keywords: vec!["TODO".to_string()],
        include_patterns: vec![".py".to_string()],
        ..Default::default()
    };
    let scanner = TodoScanner::new(config).unwrap();
    let entries = scan_tree(
        &scanner,
        "/tmp/t",
        &[("include.py", "# TODO: keep me\n"), ("exclude.js", "// TODO: exclude me\n")],
    );
    assert_eq!(entries.len(), 1);
    assert!(entries[0].text.contains("keep me"));
}

#[test]
fn test_large_file_skipped() {
    let large_content = "x\n".repeat(100);
    let config = ScanConfig { max_file_size: 1, ..Default::default() };
    let scanner = TodoScanner::new(config).unwrap();
    let entries = scanner.scan_file_contents(
        "/tmp/t/large.py",
        true,
        large_content.len() as u64,
        &lines_of(&large_content),
    );
    assert!(entries.is_empty());
}

#[test]
fn test_ignored_directories() {
    let scanner = TodoScanner::default_scanner().unwrap();
    let entries = scan_tree(
        &scanner,
        "/tmp/t",
        &[("main.py", "# TODO: main\n"), (".git/config", "# TODO: git\n")],
    );
    assert_eq!(entries.len(), 1);
    assert!(PathBuf::from(&entries[0].file_path).ends_with("main.py"));
}

#[test]
fn test_binary_file_ignored() {
    let scanner = TodoScanner::default_scanner().unwrap();
    let entries = scan_tree(&scanner, "/tmp/t", &[("test.bin", "\x00\x01\x02\x03TODO: binary\n")]);
    assert!(entries.is_empty());
}

#[test]
fn test_nested_directories() {
    let scanner = TodoScanner::default_scanner().unwrap();
    let entries = scan_tree(
        &scanner,
        "/tmp/t",
        &[
            ("a/file1.py", "# TODO: level 1\n"),
            ("a/b/file2.py", "# TODO: level 2\n"),
            ("a/b/c/file3.py", "# TODO: level 3\n"),
        ],
    );
    assert_eq!(entries.len(), 3);
}

#[test]
fn test_context_lines() {
    let content = "line 1\nline 2\n# TODO: third line\nline 4\nline 5\n";
    let config = ScanConfig { context_lines: 2, ..Default::default() };
    let scanner = TodoScanner::new(config).unwrap();
    let entries = scanner.scan_lines("/tmp/t/test.py", &lines_of(content));

    assert_eq!(entries.len(), 1);
    assert!(entries[0].context.is_some());
    assert_eq!(entries[0].context.as_deref(), Some("# TODO: third line"));
}

#[test]
fn test_scan_various_extensions() {
    let test_files = [
        ("rust.rs", "// TODO: rust"),
        ("go.go", "// TODO: go"),
        ("java.java", "// TODO: java"),
        ("javascript.js", "// TODO: js"),
        ("typescript.ts", "// TODO: ts"),
        ("shell.sh", "# TODO: shell"),
        ("markdown.md", "TODO: markdown"),
        ("text.txt", "TODO: text"),
    ];
    let contents: Vec<(String, String)> =
        test_files.iter().map(|(f, c)| (f.to_string(), format!("{}\n", c))).collect();
    let files: Vec<(&str, &str)> = contents.iter().map(|(f, c)| (f.as_str(), c.as_str())).collect();

    let scanner = TodoScanner::default_scanner().unwrap();
    let entries = scan_tree(&scanner, "/tmp/t", &files);
    assert_eq!(entries.len(), test_files.len());
}

#[test]
fn whole_words_only() {
    let scanner = TodoScanner::default_scanner().unwrap();
    assert!(scanner.scan_line("a.py", 1, "# TODOS: later").is_none());
    assert!(scanner.scan_line("a.py", 1, "# NOTODO here").is_none());
    let e = scanner.scan_line("a.py", 7, "  x = 1  # todo: fix  ").unwrap();
    assert_eq!(e.keyword, "todo");
    assert_eq!(e.text, "x = 1  # todo: fix");
    assert_eq!(e.line_number, 7);
    assert_eq!(e.file_path, "a.py");
    assert!(e.context.is_none());
}

#[test]
fn first_keyword_in_line_wins() {
    let scanner = TodoScanner::default_scanner().unwrap();
    let e = scanner.scan_line("a.py", 3, "FIXME and TODO").unwrap();
    assert_eq!(e.keyword, "FIXME");
}

#[test]
fn blank_lines_give_nothing_but_are_counted() {
    let scanner = TodoScanner::default_scanner().unwrap();
    let lines = vec!["".to_string(), "   \t".to_string(), "TODO".to_string()];
    let entries = scanner.scan_lines("a.md", &lines);
    assert_eq!(entries.len(), 1);
    assert_eq!(entries[0].line_number, 3);
}

#[test]
fn keywords_are_escaped() {
    let keywords = vec!["a.b".to_string(), "TODO".to_string()];
    assert_eq!(build_keyword_pattern(&keywords), r"(?i)\b(a\.b|TODO)\b");
    let config = ScanConfig { keywords, ..Default::default() };
    let scanner = TodoScanner::new(config).unwrap();
    assert!(scanner.scan_line("x.py", 1, "see a.b here").is_some());
    assert!(scanner.scan_line("x.py", 1, "see axb here").is_none());
}

#[test]
fn default_pattern_text() {
    let keywords = ScanConfig::default().keywords;
    assert_eq!(build_keyword_pattern(&keywords), r"(?i)\b(TODO|FIXME)\b");
}

#[test]
fn path_patterns_are_literal_substrings() {
    assert_eq!(build_substring_pattern("a.b"), r".*a\.b.*");
    assert!(pattern_hits(".py", "/src/include.py"));
    assert!(!pattern_hits(".py", "/src/include.js"));
    assert!(!pattern_hits("a.b", "/src/axb.rs"));
    assert!(pattern_hits("a.b", "/src/a.b.rs"));
}

#[test]
fn file_size_limit_is_inclusive() {
    let config = ScanConfig { max_file_size: 10, ..Default::default() };
    let scanner = TodoScanner::new(config).unwrap();
    assert!(scanner.file_fits(true, 10));
    assert!(!scanner.file_fits(true, 11));
    assert!(!scanner.file_fits(false, 1));
    let lines = vec!["TODO".to_string()];
    assert_eq!(scanner.scan_file_contents("a.py", true, 10, &lines).len(), 1);
    assert_eq!(scanner.scan_file_contents("a.py", true, 11, &lines).len(), 0);
    assert_eq!(scanner.scan_file_contents("a.py", false, 4, &lines).len(), 0);
}

#[test]
fn special_file_names_are_scanned() {
    let config = ScanConfig::default();
    assert!(config.should_scan_file("/p/Makefile"));
    assert!(config.should_scan_file("/p/Makefile.am"));
    assert!(config.should_scan_file("/p/Dockerfile"));
    assert!(config.should_scan_file("/p/Jenkinsfile"));
    assert!(!config.should_scan_file("/p/Dockerfile2"));
    assert!(!config.should_scan_file("/p/README"));
    assert!(!config.should_scan_file("/p/image.png"));
    assert!(config.should_scan_file("/p/lib.rs"));
}

#[test]
fn exclude_applies_before_include() {
    let config = ScanConfig {
        include_patterns: vec!["src".to_string()],
        exclude_patterns: vec!["gen".to_string()],
        ..Default::default()
    };
    assert!(config.should_scan_file("/p/src/a.rs"));
    assert!(!config.should_scan_file("/p/src/gen/a.rs"));
    assert!(!config.should_scan_file("/p/lib/a.rs"));
}

#[test]
fn ignore_heuristic() {
    let config = ScanConfig::default();
    assert!(config.is_ignored("/p/.git", false));
    assert!(config.is_ignored("/p/.git", true));
    assert!(!config.is_ignored("/p/.hidden", false));
    assert!(config.is_ignored("/p/.hidden", true));
    assert!(config.is_ignored("/p/node_modules", true));
    assert!(!config.is_ignored("/p/src", true));
    let off = ScanConfig { respect_gitignore: false, ..Default::default() };
    assert!(off.is_ignored("/p/.git", false));
    assert!(!off.is_ignored("/p/.hidden", true));
    assert_eq!(config.walk_step("/p/.git", false, false), WalkStep::Prune);
    assert_eq!(config.walk_step("/p/src", false, false), WalkStep::Pass);
    assert_eq!(config.walk_step("/p/a.py", false, true), WalkStep::Scan);
    assert_eq!(config.walk_step("/p/a.bin", false, true), WalkStep::Pass);
}

#[test]
fn entries_sorted_by_path_then_line() {
    let entries = vec![
        TodoEntry::new("b.py", 1, "TODO", "x"),
        TodoEntry::new("a.py", 9, "TODO", "y"),
        TodoEntry::new("a.py", 2, "TODO", "z"),
        TodoEntry::new("a/b.py", 1, "TODO", "w"),
    ];
    let sorted = sort_entries(entries);
    let order: Vec<(&str, usize)> =
        sorted.iter().map(|e| (e.file_path.as_str(), e.line_number)).collect();
    assert_eq!(order, vec![("a.py", 2), ("a.py", 9), ("a/b.py", 1), ("b.py", 1)]);
}

#[test]
fn sorting_ignores_enumeration_order() {
    let make = || {
        vec![
            TodoEntry::new("z.py", 3, "TODO", "1"),
            TodoEntry::new("m.py", 1, "FIXME", "2"),
            TodoEntry::new("m.py", 0, "TODO", "3"),
        ]
    };
    let mut reversed = make();
    reversed.reverse();
    let a: Vec<(String, usize)> =
        sort_entries(make()).into_iter().map(|e| (e.file_path, e.line_number)).collect();
    let b: Vec<(String, usize)> =
        sort_entries(reversed).into_iter().map(|e| (e.file_path, e.line_number)).collect();
    assert_eq!(a, b);
    assert!(sort_entries(Vec::new()).is_empty());
}

#[test]
fn entry_with_context() {
    let e = TodoEntry::new("f.py", 1, "TODO", "t").with_context("  # TODO t");
    assert_eq!(e.context.as_deref(), Some("  # TODO t"));
    assert_eq!(e.text, "t");
}

#[test]
fn streaming_a_file() {
    let scanner = TodoScanner::default_scanner().unwrap();
    let mut scan = scanner.start_file("s.py");
    scanner.feed_line(&mut scan, "x = 1");
    scanner.feed_line(&mut scan, "# FIXME: y");
    assert_eq!(scan.lines_read, 2);
    assert_eq!(scan.entries.len(), 1);
    assert_eq!(scan.entries[0].line_number, 2);
    assert_eq!(scan.entries[0].file_path, "s.py");
}

#[test]
fn test_result_formatting_colored() {
    let entries = vec![
        TodoEntry::new("/test/file.py", 10, "TODO", "Implement feature"),
        TodoEntry::new("/test/file.py", 25, "FIXME", "Fix this bug"),
    ];
    let output = format_results_colored(&entries, false);

    assert!(!output.is_empty());
    assert!(output.contains("file.py"));
    assert!(output.contains("TODO"));
    assert!(output.contains("FIXME"));
    assert!(output.contains("  10:"));
    assert!(output.contains("2"));
    assert!(output.contains("entries found"));
}

#[test]
fn test_empty_results_colored() {
    let entries: Vec<TodoEntry> = vec![];
    let output = format_results_colored(&entries, false);
    assert!(output.contains("No TODO"));
    assert!(output.contains("No TODO/FIXME entries found."));
}

#[test]
fn report_pieces() {
    let entries = vec![
        TodoEntry::new("a.py", 7, "todo", "# todo: x todo"),
        TodoEntry::new("a.py", 12345, "HACK", "HACK"),
        TodoEntry::new("b.rs", 1, "FIXME", "// FIXME").with_context("// FIXME"),
    ];
    let segs = render_segments(&entries, true);
    let got: Vec<(Style, &str)> = segs.iter().map(|s| (s.style, s.text.as_str())).collect();
    let expected: Vec<(Style, &str)> = vec![
        (Style::BoldUnderline, "TODO/FIXME Scan Results"),
        (Style::Plain, "\n"),
        (Style::Plain, "\n"),
        (Style::Plain, "\n"),
        (Style::CyanBold, "a.py"),
        (Style::Plain, "\n"),
        (Style::Plain, "\u{2500}\u{2500}\u{2500}\u{2500}\n"),
        (Style::Dimmed, "   7:"),
        (Style::Plain, " "),
        (Style::Plain, "# "),
        (Style::YellowBold, "todo"),
        (Style::Plain, ": x todo"),
        (Style::Plain, "\n"),
        (Style::Dimmed, "12345:"),
        (Style::Plain, " "),
        (Style::Plain, ""),
        (Style::Plain, "HACK"),
        (Style::Plain, ""),
        (Style::Plain, "\n"),
        (Style::Plain, "\n"),
        (Style::CyanBold, "b.rs"),
        (Style::Plain, "\n"),
        (Style::Plain, "\u{2500}\u{2500}\u{2500}\u{2500}\n"),
        (Style::Dimmed, "   1:"),
        (Style::Plain, " "),
        (Style::Plain, "// "),
        (Style::RedBold, "FIXME"),
        (Style::Plain, ""),
        (Style::Plain, "\n"),
        (Style::Dimmed, "    ..."),
        (Style::Plain, "\n"),
        (Style::Plain, "\n"),
        (Style::Bold, "Summary"),
        (Style::Plain, ": "),
        (Style::YellowBold, "3"),
        (Style::Plain, " entries found\n"),
    ];
    assert_eq!(got, expected);
}

#[test]
fn report_single_entry_summary() {
    let entries = vec![TodoEntry::new("x.md", 1, "TODO", "TODO")];
    let segs = render_segments(&entries, false);
    let last = segs.last().unwrap();
    assert_eq!(last.text, " entry found\n");
    let empty = render_segments(&[], false);
    assert_eq!(empty.len(), 2);
    assert_eq!(empty[0].style, Style::Green);
    assert_eq!(empty[0].text, "No TODO/FIXME entries found.");
}

#[test]
fn colors_wrap_the_message() {
    colored::control::set_override(true);
    let output = format_results_colored(&[], false);
    assert!(output.contains("No TODO/FIXME entries found."));
    assert!(output.contains("\x1b["));
    assert!(output.ends_with("\x1b[0m\n"));
}

#[test]
fn oversized_keyword_set_is_refused() {
    let config = ScanConfig { keywords: vec!["a".repeat(600_000)], ..Default::default() };
    assert!(matches!(TodoScanner::new(config), Err(ScanError::Config)));
}

#[test]
fn equal_locations_keep_their_order() {
    let entries = vec![
        TodoEntry::new("b.py", 1, "TODO", "first"),
        TodoEntry::new("a.py", 1, "TODO", "x"),
        TodoEntry::new("b.py", 1, "TODO", "second"),
    ];
    let sorted = sort_entries(entries);
    let texts: Vec<&str> = sorted.iter().map(|e| e.text.as_str()).collect();
    assert_eq!(texts, vec!["x", "first", "second"]);
}
