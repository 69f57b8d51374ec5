use horton::config::Conf;
use horton::diagnostic::{
    clone_diagnostics, files_processed, generate_line_string, Diagnostic, Diagnostics, Position,
    Range, Replacement, SarifRegion, Severity,
};
use horton::rules::never_edit::{is_never_edit, never_edit, protected_files, GlobProbe, NeverEditError};
use horton::rules::no_curly_quotes::{no_curly_quotes, no_curly_quotes_impl};
use horton::rules::pls_no_land::{is_binary_file, is_ignored_file, line_findings, pls_no_land_impl};
use horton::git::{modified_since, DeltaStatus, FileDelta};
use horton::outside::Capture;
use horton::run::{OutputFormat, Run, SourceFile};
use horton::text::{decimal, starts_with, text_contains, trimmed_range};

fn run_with(config: Conf, paths: &[&str]) -> Run {
    Run {
        paths: paths.iter().map(|p| p.to_string()).collect(),
        config,
        is_upstream: false,
        config_path: "toolbox.toml".to_string(),
        cache_dir: String::new(),
    }
}

fn diagnostic(path: &str, range: Option<Range>, severity: Severity) -> Diagnostic {
    Diagnostic {
        path: path.to_string(),
        range,
        severity,
        code: "code".to_string(),
        message: "message".to_string(),
        replacements: None,
    }
}

fn range(l1: u64, c1: u64, l2: u64, c2: u64) -> Range {
    Range { start: Position { line: l1, character: c1 }, end: Position { line: l2, character: c2 } }
}

#[test]
fn severities_have_lower_case_names() {
    assert_eq!(Severity::Error.to_string(), "error");
    assert_eq!(Severity::Warning.to_string(), "warning");
    assert_eq!(Severity::Note.to_string(), "note");
    assert_eq!(Severity::NoneLevel.to_string(), "none");
    assert_eq!(OutputFormat::Sarif.to_possible_value(), "sarif");
    assert_eq!(OutputFormat::Text.to_possible_value(), "text");
}

#[test]
fn settings_have_defaults() {
    let conf = Conf::default();
    assert!(conf.ifchange.enabled);
    assert!(conf.donotland.enabled);
    assert!(!conf.todo.enabled);
    assert!(!conf.neveredit.enabled);
    assert!(conf.neveredit.paths.is_empty());
    assert!(!conf.nocurlyquotes.enabled);
}

#[test]
fn text_report_has_one_line_for_each_diagnostic() {
    let results = Diagnostics {
        diagnostics: vec![
            diagnostic("a.rs", Some(range(12, 0, 13, 5)), Severity::Error),
            diagnostic("b.rs", None, Severity::Note),
            diagnostic("c.rs", Some(range(0, 107, 0, 108)), Severity::NoneLevel),
        ],
    };
    assert_eq!(
        generate_line_string(&results),
        "a.rs:12:0: message (error)\nb.rs: message (note)\nc.rs:0:107: message (none)"
    );
    assert_eq!(generate_line_string(&Diagnostics::default()), "");
    assert_eq!(results.diagnostics[1].to_line(), "b.rs: message (note)");
    let copies = clone_diagnostics(&results.diagnostics);
    assert_eq!(copies.len(), 3);
    assert_eq!(copies[2].range, results.diagnostics[2].range);
}

#[test]
fn results_count_lines_and_columns_from_one() {
    let mut diag = diagnostic("a.rs", Some(range(0, 4, 2, 9)), Severity::Warning);
    diag.replacements = Some(vec![
        Replacement { deleted_region: range(1, 4, 1, 5), inserted_content: "'".to_string() },
        Replacement { deleted_region: range(1, 7, 1, 8), inserted_content: "\"".to_string() },
    ]);
    let result = diag.to_sarif();
    assert_eq!(
        result.region,
        Some(SarifRegion { start_line: 1, start_column: 5, end_line: 3, end_column: 10 })
    );
    assert_eq!(result.uri, "a.rs");
    assert_eq!(result.message, "message");
    assert_eq!(result.fixes.len(), 2);
    assert_eq!(
        result.fixes[1].deleted_region,
        SarifRegion { start_line: 1, start_column: 8, end_line: 1, end_column: 9 }
    );
    assert_eq!(result.fixes[1].inserted_content, "\"");
    let fix = diag.replacements.as_ref().unwrap()[0].to_fix(&diag);
    assert_eq!(fix.uri, "a.rs");
    assert_eq!(fix.deleted_region.start_column, 5);

    let plain = diagnostic("b.rs", None, Severity::Error).to_sarif();
    assert_eq!(plain.region, None);
    assert!(plain.fixes.is_empty());
    assert_eq!(plain.level, "error");
}

#[test]
fn closing_note_names_the_files() {
    let note = files_processed(&vec!["a.rs".to_string(), "b/c.rs".to_string()], "12.5ms");
    assert_eq!(note.message, "2 files processed in 12.5ms files:[a.rs, b/c.rs]");
    assert_eq!(note.rule_id, "toolbox-perf");
    assert_eq!(note.level, "note");
    assert_eq!(files_processed(&vec![], "1s").message, "0 files processed in 1s files:[]");
}

#[test]
fn numbers_in_decimal() {
    assert_eq!(decimal(0), "0");
    assert_eq!(decimal(7), "7");
    assert_eq!(decimal(10), "10");
    assert_eq!(decimal(1234567890), "1234567890");
    assert_eq!(decimal(u64::MAX), "18446744073709551615");
}

#[test]
fn text_helpers() {
    assert!(starts_with("0123456789", "0123"));
    assert!(starts_with("0123", ""));
    assert!(!starts_with("0123", "01234"));
    assert!(!starts_with("0123", "1"));
    assert!(text_contains("abcabd", "abd"));
    assert!(text_contains("abc", ""));
    assert!(text_contains("abc", "abc"));
    assert!(!text_contains("abc", "abcd"));
    assert!(!text_contains("abc", "ca"));
    assert_eq!(trimmed_range(" \u{2003}a b\t\n", 0, 7), "a b");
    assert_eq!(trimmed_range("   ", 0, 3), "");
    assert_eq!(trimmed_range("xaby", 1, 3), "ab");
}

fn source(path: &str, text: &str) -> SourceFile {
    let first_end = text.find('\n').map_or(text.len(), |i| i + 1);
    let mut lines = Vec::new();
    if !text.is_empty() {
        lines.push(text[..first_end].to_string());
        lines.extend(text[first_end..].lines().map(|l| l.to_string()));
    }
    SourceFile {
        path: path.to_string(),
        file_name: path.rsplit('/').next().map(|n| n.to_string()),
        head: Some(text.bytes().take(4096).collect()),
        lines,
    }
}

#[test]
fn forbidden_text_and_open_tasks() {
    let mut conf = Conf::default();
    conf.todo.enabled = true;
    let run = run_with(conf, &[]);
    let file = source("d/a.rs", "x\n  do not-land // TODO: later\nfixme\n");
    let found = pls_no_land_impl(&file, &run);
    assert_eq!(found.len(), 3);
    assert_eq!(found[0].code, "do-not-land");
    assert_eq!(found[0].severity, Severity::Error);
    assert_eq!(found[0].message, "Found 'do not-land'");
    assert_eq!(found[0].range, Some(range(1, 2, 1, 13)));
    assert_eq!(found[1].code, "todo");
    assert_eq!(found[1].severity, Severity::Warning);
    assert_eq!(found[1].message, "Found 'TODO'");
    assert_eq!(found[1].range, Some(range(1, 17, 1, 21)));
    assert_eq!(found[2].message, "Found 'fixme'");
    assert_eq!(found[2].range, Some(range(2, 0, 2, 5)));
    assert_eq!(found[2].path, "d/a.rs");
}

#[test]
fn forbidden_text_is_not_searched_upstream() {
    let mut conf = Conf::default();
    conf.todo.enabled = true;
    let mut run = run_with(conf, &[]);
    run.is_upstream = true;
    let found = pls_no_land_impl(&source("a.rs", "DONOTLAND\ntodo\n"), &run);
    assert_eq!(found.len(), 1);
    assert_eq!(found[0].code, "todo");
}

#[test]
fn files_that_are_not_scanned() {
    let run = run_with(Conf::default(), &[]);
    assert_eq!(pls_no_land_impl(&source("a.rs", "DONOTLAND\n"), &run).len(), 1);
    assert!(pls_no_land_impl(&source("toolbox.toml", "DONOTLAND\n"), &run).is_empty());
    assert!(pls_no_land_impl(&source("x/toolbox.toml", "DONOTLAND\n"), &run).is_empty());
    assert!(pls_no_land_impl(&source("a.rs", ""), &run).is_empty());
    let mut binary = source("a.rs", "DONOTLAND\n");
    binary.head = Some(vec![1, 0, 2]);
    assert!(pls_no_land_impl(&binary, &run).is_empty());
    let mut unreadable = source("a.rs", "DONOTLAND\n");
    unreadable.head = None;
    assert!(pls_no_land_impl(&unreadable, &run).is_empty());
    let exempt = "// trunk-ignore(|-begin|-end|-all)\\(trunk-toolbox/(do-not-land)\\) DONOTLAND\n";
    assert!(pls_no_land_impl(&source("a.rs", exempt), &run).is_empty());
}

#[test]
fn binary_files_have_a_zero_byte_early() {
    assert!(!is_binary_file(&vec![]));
    assert!(!is_binary_file(&vec![1, 2, 3]));
    assert!(is_binary_file(&vec![1, 0, 3]));
    let mut late = vec![1u8; 4097];
    late[4096] = 0;
    assert!(!is_binary_file(&late));
    late[4095] = 0;
    assert!(is_binary_file(&late));
    assert!(is_ignored_file(&Some("toolbox.toml".to_string())));
    assert!(!is_ignored_file(&Some("Toolbox.toml".to_string())));
    assert!(!is_ignored_file(&None));
}

#[test]
fn findings_of_a_line() {
    let dnl = Some(Capture { start: 3, end: 12, text: "DONOTLAND".to_string() });
    let todo = Some(Capture { start: 14, end: 18, text: "todo".to_string() });
    let found = line_findings("a.rs", 9, &dnl, &todo);
    assert_eq!(found.len(), 2);
    assert_eq!(found[0].message, "Found 'DONOTLAND'");
    assert_eq!(found[0].range, Some(range(9, 3, 9, 12)));
    assert_eq!(found[1].message, "Found 'todo'");
    assert_eq!(line_findings("a.rs", 9, &None, &todo).len(), 1);
    assert!(line_findings("a.rs", 9, &None, &None).is_empty());
}

#[test]
fn curly_quotes_of_a_line() {
    let lines = vec!["plain".to_string(), "a \u{201C}b\u{201D} \u{2019}".to_string()];
    let found = no_curly_quotes_impl("a.md", &lines);
    assert_eq!(found.len(), 1);
    let diag = &found[0];
    assert_eq!(diag.message, "Found curly quote on line 2");
    assert_eq!(diag.code, "no-curly-quotes");
    assert_eq!(diag.severity, Severity::Error);
    assert_eq!(diag.range, Some(range(1, 2, 1, 7)));
    let fixes = diag.replacements.as_ref().unwrap();
    assert_eq!(fixes.len(), 3);
    assert_eq!(fixes[0].deleted_region, range(2, 2, 2, 3));
    assert_eq!(fixes[0].inserted_content, "\"");
    assert_eq!(fixes[1].deleted_region, range(2, 4, 2, 5));
    assert_eq!(fixes[2].deleted_region, range(2, 6, 2, 7));
    assert_eq!(fixes[2].inserted_content, "'");

    let mut conf = Conf::default();
    let files = vec![source("a.md", "\u{2018}\n"), source("b.md", "x\n\u{201F}\n")];
    assert!(no_curly_quotes(&run_with(Conf::default(), &[]), &files).is_empty());
    conf.nocurlyquotes.enabled = true;
    let mut run = run_with(conf, &[]);
    let found = no_curly_quotes(&run, &files);
    assert_eq!(found.len(), 2);
    assert_eq!((found[0].path.as_str(), found[1].path.as_str()), ("a.md", "b.md"));
    assert_eq!(found[1].message, "Found curly quote on line 2");
    run.is_upstream = true;
    assert!(no_curly_quotes(&run, &files).is_empty());
}

fn protecting(paths: &[&str], candidates: &[&str]) -> Run {
    let mut conf = Conf::default();
    conf.neveredit.enabled = true;
    conf.neveredit.paths = paths.iter().map(|p| p.to_string()).collect();
    run_with(conf, candidates)
}

fn changed(files: &[(&str, DeltaStatus)]) -> horton::git::FileChanges {
    let deltas: Vec<FileDelta> = files
        .iter()
        .map(|(path, status)| FileDelta {
            path: Some(path.to_string()),
            status: *status,
            externally_filtered: false,
            lines: Vec::new(),
        })
        .collect();
    modified_since(&deltas)
}

#[test]
fn protected_paths() {
    let run = protecting(&["src/locked/**", "*.lock"], &["src/locked/a/b.txt", "src/open.txt", "x.lock"]);
    assert!(is_never_edit("src/locked/file.txt", &run.config.neveredit));
    assert!(is_never_edit("Cargo.lock", &run.config.neveredit));
    assert!(!is_never_edit("src/file.txt", &run.config.neveredit));
    assert_eq!(protected_files(&run), vec!["src/locked/a/b.txt".to_string(), "x.lock".to_string()]);
}

#[test]
fn protected_files_that_changed() {
    let run = protecting(&["locked/**", "["], &["locked/a", "locked/b", "locked/c", "open"]);
    let modified = changed(&[
        ("locked/a", DeltaStatus::Modified),
        ("locked/b", DeltaStatus::Deleted),
        ("locked/c", DeltaStatus::Added),
        ("open", DeltaStatus::Modified),
    ]);
    let found = never_edit(&run, &vec![GlobProbe::Matches, GlobProbe::Invalid], &modified).unwrap();
    let lines: Vec<String> = found.iter().map(|d| d.to_line()).collect();
    assert_eq!(
        lines,
        vec![
            "toolbox.toml: \"[\" is not a valid glob pattern (warning)",
            "locked/a: file is protected and should not be modified (error)",
            "locked/b: file is protected and should not be deleted (warning)",
            ": 3 protected files checked (note)",
        ]
    );
    let codes: Vec<&str> = found.iter().map(|d| d.code.as_str()).collect();
    assert_eq!(
        codes,
        vec!["never-edit-bad-config", "never-edit-modified", "never-edit-deleted", "toolbox-perf"]
    );
    assert_eq!(
        never_edit(&run, &vec![GlobProbe::Matches], &modified).unwrap_err(),
        NeverEditError::ProbeMismatch
    );
}

#[test]
fn protected_paths_settings() {
    let modified = changed(&[]);
    let mut run = protecting(&[], &["a"]);
    let found = never_edit(&run, &vec![], &modified).unwrap();
    assert_eq!(found.len(), 1);
    assert_eq!(found[0].to_line(), "toolbox.toml: no protected paths provided in config (warning)");
    assert_eq!(found[0].code, "never-edit-config");
    run.is_upstream = true;
    assert!(never_edit(&run, &vec![], &modified).unwrap().is_empty());
    run.config.neveredit.enabled = false;
    run.is_upstream = false;
    assert!(never_edit(&run, &vec![], &modified).unwrap().is_empty());

    let mut run = protecting(&["none/**"], &["a"]);
    let found = never_edit(&run, &vec![GlobProbe::NoMatch], &modified).unwrap();
    assert_eq!(found.len(), 1);
    assert_eq!(found[0].message, "\"none/**\" does not protect any existing files");
    run.is_upstream = true;
    assert!(never_edit(&run, &vec![], &modified).unwrap().is_empty());
}

#[test]
fn positions_that_results_cannot_hold() {
    let max = i64::MAX as u64;
    assert!(range(0, 0, max - 1, max - 1).can_be_sarif());
    assert!(!range(0, 0, 0, max).can_be_sarif());
    assert!(!range(u64::MAX, 0, 0, 0).can_be_sarif());
    let mut diag = diagnostic("a.rs", Some(range(1, 2, 3, 4)), Severity::Error);
    assert!(diag.can_be_sarif());
    diag.replacements = Some(vec![
        Replacement { deleted_region: range(1, 2, 1, 3), inserted_content: String::new() },
        Replacement { deleted_region: range(1, max, 1, 3), inserted_content: String::new() },
    ]);
    assert!(!diag.can_be_sarif());
    diag.replacements.as_mut().unwrap().pop();
    assert!(diag.can_be_sarif());
    diag.range = Some(range(max, 0, 0, 0));
    assert!(!diag.can_be_sarif());
    assert!(diagnostic("a.rs", None, Severity::Error).can_be_sarif());
}
