use horton::config::Conf;
use horton::diagnostic::{files_processed, generate_line_string, Diagnostic, Diagnostics, SarifResult, Severity};
use horton::git::{
    modified_since, AttributeFilter, DeltaStatus, DiffLine, FileChanges, FileDelta, FileStatus,
    FilterAttribute,
};
use horton::rules::if_change_then_change::{
    find_ictc_blocks, triggered_blocks, BlockProbe, Ictc, IctcBlock, ThenChange,
};
use horton::rules::never_edit::{never_edit, GlobProbe};
use horton::rules::no_curly_quotes::no_curly_quotes;
use horton::rules::pls_no_land::pls_no_land;
use horton::run::{Run, SourceFile};
use std::collections::BTreeMap;

type Tree = BTreeMap<String, Vec<u8>>;

/// A repository kept in memory: its commits, its index and its working tree.
struct TestRepo {
    commits: Vec<Tree>,
    index: Tree,
    work: Tree,
}

struct HortonOutput {
    stdout: String,
    diagnostics: Vec<Diagnostic>,
    note: SarifResult,
    exit_code: Option<i32>,
}

impl HortonOutput {
    fn has_result(&self, rule_id: &str, message: &str, file: Option<&str>) -> bool {
        if self.note.rule_id == rule_id && self.note.message.contains(message) && file.is_none() {
            return true;
        }
        self.diagnostics.iter().any(|d| {
            d.code == rule_id
                && d.message.contains(message)
                && file.map_or(true, |f| d.path.contains(f))
        })
    }

    fn has_result_with_rule_id(&self, rule_id: &str) -> bool {
        self.note.rule_id == rule_id || self.diagnostics.iter().any(|d| d.code == rule_id)
    }

    fn count(&self, rule_id: &str) -> usize {
        self.diagnostics.iter().filter(|d| d.code == rule_id).count()
    }
}

fn is_binary(data: &[u8]) -> bool {
    data.iter().take(8000).any(|b| *b == 0)
}

fn split_lines(data: &[u8]) -> Vec<String> {
    String::from_utf8_lossy(data).lines().map(|l| l.to_string()).collect()
}

/// The line records of a diff between two versions of a file.
fn diff_lines(old: &[String], new: &[String]) -> Vec<DiffLine> {
    let n = old.len();
    let m = new.len();
    let mut lcs = vec![vec![0usize; m + 1]; n + 1];
    for i in (0..n).rev() {
        for j in (0..m).rev() {
            lcs[i][j] = if old[i] == new[j] {
                lcs[i + 1][j + 1] + 1
            } else {
                lcs[i + 1][j].max(lcs[i][j + 1])
            };
        }
    }
    let mut out = Vec::new();
    let (mut i, mut j) = (0, 0);
    while i < n || j < m {
        if i < n && j < m && old[i] == new[j] {
            out.push(DiffLine { old_lineno: Some(i as u32 + 1), new_lineno: Some(j as u32 + 1) });
            i += 1;
            j += 1;
        } else if i < n && (j == m || lcs[i + 1][j] >= lcs[i][j + 1]) {
            out.push(DiffLine { old_lineno: Some(i as u32 + 1), new_lineno: None });
            i += 1;
        } else {
            out.push(DiffLine { old_lineno: None, new_lineno: Some(j as u32 + 1) });
            j += 1;
        }
    }
    out
}

/// Reads the settings from the few forms of TOML that the tests write.
fn parse_config(text: &str) -> Conf {
    let mut conf = Conf::default();
    let mut section = String::new();
    for line in text.lines() {
        let line = line.trim();
        if line.starts_with('[') && line.ends_with(']') {
            section = line[1..line.len() - 1].to_string();
        } else if let Some((key, value)) = line.split_once('=') {
            let (key, value) = (key.trim(), value.trim());
            match (section.as_str(), key) {
                ("ifchange", "enabled") => conf.ifchange.enabled = value == "true",
                ("donotland", "enabled") => conf.donotland.enabled = value == "true",
                ("todo", "enabled") => conf.todo.enabled = value == "true",
                ("neveredit", "enabled") => conf.neveredit.enabled = value == "true",
                ("nocurlyquotes", "enabled") => conf.nocurlyquotes.enabled = value == "true",
                ("neveredit", "paths") => {
                    conf.neveredit.paths = value
                        .trim_matches(|c| c == '[' || c == ']')
                        .split(',')
                        .map(|p| p.trim().trim_matches('"').to_string())
                        .filter(|p| !p.is_empty())
                        .collect();
                }
                _ => {}
            }
        }
    }
    conf
}

impl TestRepo {
    fn make() -> TestRepo {
        TestRepo { commits: vec![Tree::new()], index: Tree::new(), work: Tree::new() }
    }

    fn write(&mut self, relpath: &str, data: &[u8]) {
        self.work.insert(relpath.to_string(), data.to_vec());
    }

    fn delete(&mut self, relpath: &str) {
        assert!(self.work.remove(relpath).is_some(), "Unable to delete {relpath}");
    }

    fn git_add_all(&mut self) {
        self.index = self.work.clone();
    }

    fn git_commit_all(&mut self, _message: &str) {
        self.git_add_all();
        self.commits.push(self.index.clone());
    }

    fn set_toolbox_toml(&mut self, config: &str) {
        self.write(".config/toolbox.toml", config.as_bytes());
    }

    fn run_horton(&self) -> HortonOutput {
        self.run_horton_with("HEAD", "sarif")
    }

    /// What the `filter` attribute of a path is, by the patterns of the
    /// form `*.ext` in `.gitattributes`.
    fn filter_attribute(&self, path: &str) -> Option<FilterAttribute> {
        let text = String::from_utf8_lossy(self.work.get(".gitattributes")?).to_string();
        for line in text.lines() {
            let mut words = line.split_whitespace();
            let pattern = words.next()?;
            if path.ends_with(pattern.trim_start_matches('*')) {
                for word in words {
                    if let Some(value) = word.strip_prefix("filter=") {
                        return Some(FilterAttribute::Value(value.as_bytes().to_vec()));
                    }
                }
            }
        }
        Some(FilterAttribute::Unspecified)
    }

    fn changes(&self, upstream_ref: &str) -> FileChanges {
        let head = match upstream_ref {
            "HEAD" => &self.commits[self.commits.len() - 1],
            "HEAD^" => &self.commits[self.commits.len() - 2],
            other => panic!("unknown reference {other}"),
        };
        let mut filter = AttributeFilter::new();
        let mut deltas = Vec::new();
        let mut paths: Vec<&String> = head.keys().chain(self.work.keys()).collect();
        paths.sort();
        paths.dedup();
        for path in paths {
            let (status, old, new) = match (head.get(path), self.work.get(path)) {
                (Some(old), Some(new)) if old == new => continue,
                (Some(old), Some(new)) => (DeltaStatus::Modified, old.clone(), new.clone()),
                (Some(old), None) => (DeltaStatus::Deleted, old.clone(), Vec::new()),
                (None, Some(new)) if self.index.contains_key(path) => {
                    (DeltaStatus::Added, Vec::new(), new.clone())
                }
                (None, Some(_)) => (DeltaStatus::Untracked, Vec::new(), Vec::new()),
                (None, None) => continue,
            };
            let lines = if is_binary(&old) || is_binary(&new) {
                Vec::new()
            } else {
                diff_lines(&split_lines(&old), &split_lines(&new))
            };
            let externally_filtered = match filter.lookup(path) {
                Some(known) => known,
                None => filter.is_externally_filtered(path, &self.filter_attribute(path)),
            };
            deltas.push(FileDelta { path: Some(path.clone()), status, externally_filtered, lines });
        }
        modified_since(&deltas)
    }

    fn run_horton_with(&self, upstream_ref: &str, format: &str) -> HortonOutput {
        let modified = self.changes(upstream_ref);
        let files: Vec<String> = self
            .work
            .keys()
            .chain(self.commits.iter().flat_map(|c| c.keys()))
            .filter(|p| modified.paths.get(p.as_str()).is_some())
            .cloned()
            .collect::<std::collections::BTreeSet<_>>()
            .into_iter()
            .collect();
        let config_path = ["toolbox.toml", ".config/toolbox.toml"]
            .iter()
            .find(|p| self.work.contains_key(**p))
            .map(|p| p.to_string());
        let config = match &config_path {
            Some(p) => parse_config(&String::from_utf8_lossy(&self.work[p])),
            None => Conf::default(),
        };
        let run = Run {
            paths: horton::paths::dedup_paths(&files),
            config,
            is_upstream: false,
            config_path: config_path.unwrap_or("no_config_found.toml".to_string()),
            cache_dir: String::new(),
        };

        let mut sources = Vec::new();
        let mut all_blocks: Vec<IctcBlock> = Vec::new();
        for path in &files {
            let data = self.work.get(path);
            let text = data.and_then(|d| String::from_utf8(d.clone()).ok());
            let binary = data.map_or(true, |d| d.iter().take(4096).any(|b| *b == 0));
            let mut lines: Vec<String> = Vec::new();
            if let (Some(text), false) = (&text, binary) {
                let first_end = text.find('\n').map_or(text.len(), |i| i + 1);
                lines.push(text[..first_end].to_string());
                lines.extend(text[first_end..].lines().map(|l| l.to_string()));
                all_blocks.extend(find_ictc_blocks(path, &split_lines(text.as_bytes())));
            }
            sources.push(SourceFile {
                path: path.clone(),
                file_name: path.rsplit('/').next().map(|n| n.to_string()),
                head: data.map(|d| d.iter().take(4096).cloned().collect()),
                lines,
            });
        }

        let mut diagnostics = pls_no_land(&run, &sources);

        let mut ictc = Ictc::new(&run, upstream_ref);
        let probes: Vec<BlockProbe> = triggered_blocks(&all_blocks, &modified)
            .iter()
            .map(|b| BlockProbe {
                remote: None,
                target_exists: match &b.thenchange {
                    Some(ThenChange::RepoFile(target)) => self.work.contains_key(target),
                    _ => false,
                },
            })
            .collect();
        diagnostics.extend(ictc.run(&all_blocks, &modified, &probes).expect("analysis"));

        let probes: Vec<GlobProbe> = run
            .config
            .neveredit
            .paths
            .iter()
            .map(|g| {
                if self.work.keys().any(|p| glob_match::glob_match(g, p)) {
                    GlobProbe::Matches
                } else {
                    GlobProbe::NoMatch
                }
            })
            .collect();
        diagnostics.extend(never_edit(&run, &probes, &modified).expect("protected paths"));

        let readable: Vec<SourceFile> =
            sources.into_iter().filter(|s| s.head.is_some() && !s.lines.is_empty()).collect();
        diagnostics.extend(no_curly_quotes(&run, &readable));

        let results = Diagnostics { diagnostics };
        let mut stdout = generate_line_string(&results);
        if format == "text" || !stdout.is_empty() {
            stdout.push('\n');
        }
        HortonOutput {
            stdout,
            diagnostics: results.diagnostics,
            note: files_processed(&run.paths, "1.5ms"),
            exit_code: Some(0),
        }
    }
}

const PICTURE: &[u8] = b"\x89PNG\r\n\x1a\n\0\0\0\rIHDR\0\0\0\x10\0\0\0\x10\x08\x06\0\0\0\x1f\xf3\xffa";

// ---- text that must not land ----

#[test]
fn basic() {
    let mut test_repo = TestRepo::make();
    test_repo.write("alpha.foo", "lorem ipsum dolor\ndo-NOT-lAnD\nsit amet\n".as_bytes());
    test_repo.git_add_all();
    let horton = test_repo.run_horton();

    assert_eq!(horton.exit_code, Some(0));
    assert!(horton.has_result("do-not-land", "Found 'do-NOT-lAnD'", Some("alpha.foo")));
}

#[test]
fn binary_files_ignored() {
    let mut test_repo = TestRepo::make();
    test_repo.write("alpha.foo.binary", PICTURE);
    test_repo.git_add_all();
    let horton = test_repo.run_horton();

    assert_eq!(horton.note.rule_id, "toolbox-perf");
    assert!(!horton.has_result_with_rule_id("do-not-land"));
}

#[test]
fn do_not_land_test_honor_disabled_in_config() {
    let mut test_repo = TestRepo::make();
    test_repo.write("alpha.foo", "do-not-land\n".as_bytes());
    test_repo.git_add_all();

    {
        let horton = test_repo.run_horton();
        assert!(horton.has_result_with_rule_id("do-not-land"));
    }

    let config = r#"
        [donotland]
        enabled = false
    "#;

    // Now disable the rule
    test_repo.write("toolbox.toml", config.as_bytes());
    {
        let horton = test_repo.run_horton();
        assert!(!horton.has_result_with_rule_id("do-not-land"));
    }
}

// ---- blocks ----

fn assert_no_expected_changes(before: &str, after: &str) {
    let mut test_repo = TestRepo::make();

    test_repo.write("constant.foo", "lorem ipsum".as_bytes());
    test_repo.write("revision.foo", before.as_bytes());
    test_repo.git_commit_all("create constant.foo and revision.foo");

    test_repo.write("revision.foo", after.as_bytes());
    let horton = test_repo.run_horton();

    assert_eq!(horton.exit_code, Some(0));
    assert!(!horton.has_result(
        "if-change-then-change-this",
        "Expected change in constant.foo because revision.foo was modified",
        Some("revision.foo"),
    ));
}

fn assert_expected_change_in_constant_foo(before: &str, after: &str) {
    let mut test_repo = TestRepo::make();

    test_repo.write("constant.foo", "lorem ipsum".as_bytes());
    test_repo.write("revision.foo", before.as_bytes());
    test_repo.git_commit_all("create constant.foo and revision.foo");

    test_repo.write("revision.foo", after.as_bytes());
    let horton = test_repo.run_horton();

    assert_eq!(horton.exit_code, Some(0));
    assert!(horton.has_result(
        "if-change-then-change-this",
        "Expected change in constant.foo because revision.foo was modified",
        Some("revision.foo"),
    ));
}

#[test]
fn unmodified_block_and_preceding_lines_unchanged() {
    let before = r#"
        a
        b
        c
        // IfChange
        d
        // ThenChange constant.foo
        e
        f
    "#;

    let after = r#"
        a
        b
        c
        // IfChange
        d
        // ThenChange constant.foo
        e
        f
    "#;

    assert_no_expected_changes(before, after);
}

#[test]
fn unmodified_block_and_preceding_lines_changed() {
    let before = r#"
        a
        b
        c
        // IfChange
        d
        // ThenChange constant.foo
        e
        f
    "#;

    let after = r#"
        a
        b
        c
        x
        y
        z
        // IfChange
        d
        // ThenChange constant.foo
        e
        f
    "#;

    assert_no_expected_changes(before, after);
}

#[test]
fn unmodified_block_and_preceding_lines_deleted() {
    let before = r#"
        a
        b
        c
        // IfChange
        d
        // ThenChange constant.foo
        e
        f
    "#;

    let after = r#"
        a
        // IfChange
        d
        // ThenChange constant.foo
        e
        f
    "#;

    assert_no_expected_changes(before, after);
}

#[test]
fn unmodified_block_and_otehr_lines_modified() {
    let before = r#"
        a
        b
        c
        // IfChange
        d
        // ThenChange constant.foo
        e
        f
    "#;

    let after = r#"
        aaaa
        bbb
        ccc
        // IfChange
        d
        // ThenChange constant.foo
        eeeeeee
        ffff
    "#;

    assert_no_expected_changes(before, after);
}

#[test]
fn modified_block_and_preceding_lines_unchanged() {
    let before = r#"
        a
        // IfChange
        b
        // ThenChange constant.foo
        c
    "#;

    let after = r#"
        a
        // IfChange
        bbbbbbbb
        // ThenChange constant.foo
        c
    "#;

    assert_expected_change_in_constant_foo(before, after);
}

#[test]
fn modified_block_and_preceding_line_count_unchanged() {
    let before = r#"
        aaaaaaaaaa        
        // IfChange
        b
        // ThenChange constant.foo
        c
    "#;

    let after = r#"
        a
        // IfChange
        bbbbbbbb
        // ThenChange constant.foo
        c
    "#;

    assert_expected_change_in_constant_foo(before, after);
}

#[test]
fn modified_block_and_preceding_line_count_decreased() {
    let before = r#"
        a
        aaa
        aaaaa        
        // IfChange
        b
        // ThenChange constant.foo
        c
    "#;

    let after = r#"
        a
        // IfChange
        bbbbbbbb
        // ThenChange constant.foo
        c
    "#;

    assert_expected_change_in_constant_foo(before, after);
}

#[test]
fn modified_block_and_preceding_line_count_increased() {
    let before = r#"
        a        
        // IfChange
        b
        // ThenChange constant.foo
        c
    "#;

    let after = r#"
        a
        aa
        aaa
        // IfChange
        bbbbbbbb
        // ThenChange constant.foo
        c
    "#;

    assert_expected_change_in_constant_foo(before, after);
}

#[test]
fn assert_missing_thenchange() {
    let single_tag = r#"
        aaaa
        bbb
        cc
        // IfChange
        d
    "#;

    let multi_tag = r#"
        aaaa
        bbb
        cc
        // IfChange
        c
        // IfChange
        d
        // ThenChange constants.foo
    "#;

    let mut test_repo = TestRepo::make();

    test_repo.write("constant.foo", "foo-bar".as_bytes());
    test_repo.write("revision.foo", "".as_bytes());
    test_repo.git_commit_all("create constant.foo and revision.foo");

    {
        test_repo.write("revision.foo", single_tag.as_bytes());
        let horton = test_repo.run_horton();
        assert_eq!(horton.exit_code, Some(0));
        assert!(horton.has_result("if-change-mismatched", "Expected matching ThenChange tag", None));
    }

    {
        test_repo.write("revision.foo", multi_tag.as_bytes());
        let horton = test_repo.run_horton();
        assert_eq!(horton.exit_code, Some(0));
        assert!(horton.has_result("if-change-mismatched", "Expected matching ThenChange tag", None));
    }
}

#[test]
fn assert_missing_ifchange() {
    let single_tag = r#"
        aaaa
        bbb
        cc
        // ThenChange
        d
    "#;

    let multi_tag = r#"
        aaaa
        bbb
        cc
        // IfChange
        c
        // ThenChange constants.foo
        d
        // ThenChange constants.foo
    "#;

    let mut test_repo = TestRepo::make();

    test_repo.write("constant.foo", "foo-bar".as_bytes());
    test_repo.write("revision.foo", "".as_bytes());
    test_repo.git_commit_all("create constant.foo and revision.foo");

    {
        test_repo.write("revision.foo", single_tag.as_bytes());
        let horton = test_repo.run_horton();
        assert_eq!(horton.exit_code, Some(0));
        assert!(horton.has_result("if-change-mismatched", "Expected preceding IfChange tag", None));
        assert!(horton.stdout.contains(""));
    }

    {
        test_repo.write("revision.foo", multi_tag.as_bytes());
        let horton = test_repo.run_horton();
        assert_eq!(horton.exit_code, Some(0));
        assert!(horton.has_result("if-change-mismatched", "Expected preceding IfChange tag", None));
    }
}

#[test]
fn assert_localfile_notfound() {
    let missing_file = r#"
        aaaa
        bbb
        // IfChange
        cc
        // ThenChange zee.foo
        d
    "#;

    let mut test_repo = TestRepo::make();

    test_repo.write("revision.foo", "".as_bytes());
    test_repo.git_commit_all("create constant.foo and revision.foo");

    {
        test_repo.write("revision.foo", missing_file.as_bytes());
        let horton = test_repo.run_horton();
        assert_eq!(horton.exit_code, Some(0));
        assert!(horton.has_result(
            "if-change-file-does-not-exist",
            "ThenChange zee.foo does not exist",
            None,
        ));
    }
}

/// A block whose line changes while its target stays as it is.
#[test]
fn changed_block_with_untouched_target_is_one_error() {
    let mut test_repo = TestRepo::make();
    test_repo.write("constant.foo", "lorem ipsum".as_bytes());
    test_repo.write("revision.foo", "a\nb\nc\n// IfChange\nX\n// ThenChange constant.foo\n".as_bytes());
    test_repo.git_commit_all("create constant.foo and revision.foo");

    test_repo.write("revision.foo", "a\nb\nc\n// IfChange\nY\n// ThenChange constant.foo\n".as_bytes());
    let horton = test_repo.run_horton();

    assert_eq!(horton.diagnostics.len(), 1);
    let diag = &horton.diagnostics[0];
    assert_eq!(diag.code, "if-change-then-change-this");
    assert_eq!(diag.severity, Severity::Error);
    assert_eq!(diag.path, "revision.foo");
    assert_eq!(diag.message, "Expected change in constant.foo because revision.foo was modified");
    let range = diag.range.expect("range");
    assert_eq!((range.start.line, range.end.line), (4, 6));
    assert!(!horton.diagnostics.iter().any(|d| d.path == "constant.foo"));
}

/// A closing marker without an opening marker.
#[test]
fn lone_closing_marker_is_one_warning() {
    let mut test_repo = TestRepo::make();
    test_repo.write("revision.foo", "".as_bytes());
    test_repo.git_commit_all("create revision.foo");

    test_repo.write("revision.foo", "a\n// ThenChange x\nb\n".as_bytes());
    let horton = test_repo.run_horton();

    assert_eq!(horton.diagnostics.len(), 1);
    let diag = &horton.diagnostics[0];
    assert_eq!(diag.severity, Severity::Warning);
    assert_eq!(diag.code, "if-change-mismatched");
    assert_eq!(diag.message, "Expected preceding IfChange tag");
    let range = diag.range.expect("range");
    assert_eq!((range.start.line, range.start.character), (2, 0));
    assert_eq!((range.end.line, range.end.character), (2, 0));
}

// ---- binary and externally filtered files ----

#[test]
fn binary_file_untracked() {
    let mut test_repo = TestRepo::make();

    test_repo.write("picture.binary", PICTURE);

    let horton = test_repo.run_horton();

    assert_eq!(horton.exit_code, Some(0));
    assert!(!horton.stdout.contains("Expected change"));
    assert!(!horton.stdout.contains("picture.binary"));
}

#[test]
fn binary_file_committed() {
    let mut test_repo = TestRepo::make();

    test_repo.write("picture.binary", PICTURE);
    test_repo.git_commit_all("commit a picture");

    let horton = test_repo.run_horton_with("HEAD^", "sarif");

    assert_eq!(horton.exit_code, Some(0));
    assert!(!horton.stdout.contains("Expected change"));
    assert!(!horton.stdout.contains("picture.binary"));
}

#[test]
fn lfs_file_untracked() {
    let mut test_repo = TestRepo::make();

    test_repo.write(".gitattributes", "*.binary filter=lfs diff=lfs merge=lfs -text\n".as_bytes());
    test_repo.git_commit_all("create .gitattributes");

    test_repo.write("picture.binary", PICTURE);

    let horton = test_repo.run_horton();

    assert_eq!(horton.exit_code, Some(0));
    assert!(!horton.stdout.contains("Expected change"));
    assert!(!horton.stdout.contains("picture.binary"));
}

#[test]
fn lfs_file_committed() {
    let mut test_repo = TestRepo::make();

    test_repo.write(".gitattributes", "*.binary filter=lfs diff=lfs merge=lfs -text\n".as_bytes());
    test_repo.git_commit_all("create .gitattributes");

    test_repo.write("picture.binary", PICTURE);

    let horton = test_repo.run_horton_with("HEAD^", "sarif");

    assert_eq!(horton.exit_code, Some(0));
    assert!(!horton.stdout.contains("Expected change"));
    assert!(!horton.stdout.contains("picture.binary"));
}

/// A file that large-file storage manages is left out of the changes even
/// where it is text.
#[test]
fn lfs_text_file_has_no_status() {
    let mut test_repo = TestRepo::make();
    test_repo.write(".gitattributes", "*.big filter=lfs diff=lfs merge=lfs -text\n".as_bytes());
    test_repo.write("notes.big", "a\n".as_bytes());
    test_repo.write("notes.txt", "a\n".as_bytes());
    test_repo.git_commit_all("create files");
    test_repo.write("notes.big", "b\n".as_bytes());
    test_repo.write("notes.txt", "b\n".as_bytes());

    let changes = test_repo.changes("HEAD");
    assert!(changes.paths.get("notes.big").is_none());
    assert_eq!(changes.paths.get("notes.txt"), Some(&FileStatus::Modified));
    assert_eq!(changes.hunks.len(), 1);
    assert_eq!(changes.hunks[0].path, "notes.txt");
}

// ---- protected paths ----

#[test]
fn assert_modified_locked_file() {
    let mut test_repo = TestRepo::make();

    test_repo.write("src/write_once.txt", "immutable text".as_bytes());
    test_repo.write("src/write_many.txt", "immutable text".as_bytes());
    test_repo.git_add_all();
    test_repo.git_commit_all("create write once and write many file");

    // enable and configure never_edit
    let toml = r#"
    [neveredit]
    enabled = true
    paths = ["src/foo", "src/bar/**", "**/write_once*"]
"#;

    // write to the protected file
    test_repo.write("src/write_once.txt", "edit the text".as_bytes());
    test_repo.write("src/write_many.txt", "edit the text".as_bytes());

    test_repo.set_toolbox_toml(toml);

    let horton = test_repo.run_horton();

    assert_eq!(horton.exit_code, Some(0));
    assert!(horton.has_result(
        "never-edit-modified",
        "file is protected and should not be modified",
        Some("src/write_once.txt"),
    ));
    assert!(!horton.has_result("never-edit-modified", "", Some("src/write_many.txt")));
}

#[test]
fn assert_deleted_locked_file() {
    let mut test_repo = TestRepo::make();

    test_repo.write("src/locked/file.txt", "immutable text".as_bytes());
    test_repo.write("src/editable.txt", "mutable text".as_bytes());
    test_repo.git_add_all();
    test_repo.git_commit_all("create locked and editable files");

    // enable and configure never_edit
    let toml = r#"
    [neveredit]
    enabled = true
    paths = ["src/locked/**"]
"#;

    // write to the protected file
    test_repo.delete("src/locked/file.txt");

    test_repo.set_toolbox_toml(toml);

    let horton = test_repo.run_horton();

    assert_eq!(horton.exit_code, Some(0));
    assert!(horton.has_result("never-edit-deleted", "", Some("src/locked/file.txt")));
}

#[test]
fn never_edit_test_honor_disabled_in_config() {
    let mut test_repo = TestRepo::make();

    test_repo.write("src/locked/file.txt", "immutable text".as_bytes());
    test_repo.git_add_all();
    test_repo.git_commit_all("create locked and editable files");

    let toml_on = r#"
    [neveredit]
    enabled = true
    paths = ["src/locked/**"]
"#;

    // enable and configure never_edit
    let toml_off = r#"
    [neveredit]
    enabled = false
    paths = ["src/locked/**"]
"#;

    // write to the protected file
    test_repo.delete("src/locked/file.txt");

    test_repo.set_toolbox_toml(toml_on);
    let mut horton = test_repo.run_horton();
    assert!(horton.has_result("never-edit-deleted", "", Some("src/locked/file.txt")));

    test_repo.set_toolbox_toml(toml_off);
    horton = test_repo.run_horton();

    assert_eq!(horton.exit_code, Some(0));
    assert!(!horton.has_result("never-edit-deleted", "", Some("src/locked/file.txt")));
    assert!(horton.has_result("toolbox-perf", "1 files processed", None));
}

#[test]
fn warn_for_config_not_protecting_anything() {
    let mut test_repo = TestRepo::make();

    // enable and configure never_edit
    let toml = r#"
    [neveredit]
    enabled = true
    paths = ["bad_path/**"]
"#;
    test_repo.set_toolbox_toml(toml);

    let horton = test_repo.run_horton();

    assert_eq!(horton.exit_code, Some(0));
    assert!(horton.has_result_with_rule_id("never-edit-bad-config"));
    assert!(horton.has_result(
        "never-edit-bad-config",
        "\"bad_path/**\" does not protect any existing files",
        Some(".config/toolbox.toml"),
    ));
}

// ---- curly quotes ----

const TOML_ON: &str = r#"
[nocurlyquotes]
enabled = true
"#;

const CURLY_QUOTES: &str = "
the opening double quote ( \u{201C} ) U+201C
the closing double quote ( \u{201D} ) U+201D
the opening single quote ( \u{2018} ) U+2018
the closing single quote ( \u{2019}) U+2019
the double low quotation ( \u{201E} ) U+201E
the double high reversed ( \u{201F} ) U+201F
//
";

#[test]
fn no_curly_quote_test_honor_disabled_in_config() {
    let mut test_repo = TestRepo::make();

    test_repo.write("src/curly.txt", "empty_file".as_bytes());
    test_repo.git_add_all();
    test_repo.git_commit_all("create curly quote file");
    test_repo.write("src/curly.txt", CURLY_QUOTES.as_bytes());

    // disable nocurlyquotes
    let toml_off = r#"
    [nocurlyquotes]
    enabled = false
"#;

    test_repo.set_toolbox_toml(TOML_ON);
    let mut horton = test_repo.run_horton();
    assert!(horton.has_result("no-curly-quotes", "", Some("src/curly.txt")));

    test_repo.set_toolbox_toml(toml_off);
    horton = test_repo.run_horton();

    assert_eq!(horton.exit_code, Some(0));
    assert!(!horton.has_result("no-curly-quotes", "", Some("src/curly.txt")));
    assert!(horton.has_result("toolbox-perf", "1 files processed", None));
}

#[test]
fn assert_find_curly_quotes() {
    let mut test_repo = TestRepo::make();
    test_repo.set_toolbox_toml(TOML_ON);
    test_repo.write("revision.foo", "//".as_bytes());
    test_repo.git_commit_all("create revision.foo");

    {
        test_repo.write("revision.foo", CURLY_QUOTES.as_bytes());
        let horton = test_repo.run_horton();
        assert_eq!(horton.exit_code, Some(0));
        assert!(horton.has_result("no-curly-quotes", "Found curly quote on line 2", Some("revision.foo")));
        assert!(horton.has_result("no-curly-quotes", "Found curly quote on line 3", Some("revision.foo")));
        assert!(horton.has_result("no-curly-quotes", "Found curly quote on line 4", Some("revision.foo")));
        assert!(horton.has_result("no-curly-quotes", "Found curly quote on line 5", Some("revision.foo")));
        assert_eq!(horton.count("no-curly-quotes"), 6);
    }
}

// ---- reports ----

#[test]
fn default_print() {
    let mut test_repo = TestRepo::make();

    test_repo.write(
        "alpha.foo",
        "lorem ipsum dolor\ndo-NOT-lAnD\nDONOTLAND sit amet\n".as_bytes(),
    );
    test_repo.git_add_all();
    let horton = test_repo.run_horton_with("HEAD", "text");
    let expected_text = String::from(
        "alpha.foo:1:0: Found 'do-NOT-lAnD' (error)\nalpha.foo:2:0: Found 'DONOTLAND' (error)\n",
    );

    assert_eq!(horton.exit_code, Some(0));
    assert_eq!(horton.stdout, expected_text);
}

// ---- notes of open tasks ----

fn write_enable_config(test_repo: &mut TestRepo) {
    let config = r#"
    [todo]
    enabled = true

    [donotland]
    enabled = false
"#;
    test_repo.write("toolbox.toml", config.as_bytes());
}

#[test]
fn basic_todo() {
    let mut test_repo = TestRepo::make();

    test_repo.write("alpha.foo", "lorem ipsum dolor\ntoDO\nsit amet\n".as_bytes());
    write_enable_config(&mut test_repo);
    test_repo.git_add_all();
    let horton = test_repo.run_horton();

    assert_eq!(horton.exit_code, Some(0));
    assert!(horton.stdout.contains("Found 'toDO'"));
}

#[test]
fn basic_fixme() {
    let mut test_repo = TestRepo::make();

    test_repo.write("alpha.foo", "lorem ipsum dolor\nFIXME: fix this\nsit amet\n".as_bytes());
    write_enable_config(&mut test_repo);
    test_repo.git_add_all();
    let horton = test_repo.run_horton();

    assert_eq!(horton.exit_code, Some(0));
    assert!(horton.stdout.contains("Found 'FIXME'"));
}

#[test]
fn basic_mastodon() {
    let mut test_repo = TestRepo::make();

    test_repo.write(
        "alpha.foo",
        "lorem ipsum dolor\n// Mastodons are cool\nsit amet\n".as_bytes(),
    );
    write_enable_config(&mut test_repo);
    test_repo.git_add_all();
    let horton = test_repo.run_horton();

    assert_eq!(horton.exit_code, Some(0));
    assert!(!horton.stdout.contains("Found 'todo'"));
}

#[test]
fn default_disabled_in_config() {
    let mut test_repo = TestRepo::make();
    test_repo.write("alpha.foo", "todo\n".as_bytes());
    test_repo.git_add_all();

    {
        let horton = test_repo.run_horton();
        assert!(!horton.stdout.contains("Found 'todo'"));
    }
}
