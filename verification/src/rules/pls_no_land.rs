//! Text that must not land, and notes of open tasks.

use crate::diagnostic::{
    lemma_views_add, views, Diagnostic, DiagnosticView, Position, Range, Severity,
};
use crate::outside::{capture_view, regex_capture, regex_capture_of, Capture};
use crate::run::{Run, SourceFile, SourceFileView};
use crate::text::{concat3, contains_text, text_contains};
use vstd::prelude::*;
use vstd::string::*;

verus! {

/// The expression for text that must not land.
pub const DNL_PATTERN: &'static str = "(?i)(DO[\\s_-]*NOT[\\s_-]*LAND)";

/// The expression for notes of open tasks.
pub const TODO_PATTERN: &'static str = "(?i)(TODO|FIXME)(\\W+.*)?$";

/// A line that holds this text is not searched for text that must not land.
pub const DNL_IGNORE: &'static str =
    "trunk-ignore(|-begin|-end|-all)\\(trunk-toolbox/(do-not-land)\\)";

/// A line that holds this text is not searched for notes of open tasks.
pub const TODO_IGNORE: &'static str = "trunk-ignore(|-begin|-end|-all)\\(trunk-toolbox/(todo)\\)";

/// How many bytes of a file are looked at to tell whether it is binary.
pub const BINARY_HEAD_LEN: usize = 4096;

/// Whether a zero byte is among the first 4096 bytes.
pub open spec fn has_zero_byte(head: Seq<u8>) -> bool {
    exists|i: int| 0 <= i < head.len() && i < 4096 && #[trigger] head[i] == 0
}

/// Tells from the first bytes of a file whether it is binary: it is where
/// one of its first 4096 bytes is zero.
pub fn is_binary_file(head: &Vec<u8>) -> (r: bool)
    ensures
        r == has_zero_byte(head@),
{
    let mut i: usize = 0;
    while i < head.len() && i < BINARY_HEAD_LEN
        invariant
            i <= head.len(),
            i <= 4096,
            forall|k: int| 0 <= k < i ==> #[trigger] head@[k] != 0,
        decreases head.len() - i,
    {
        if head[i] == 0 {
            return true;
        }
        i += 1;
    }
    false
}

/// The name of the settings file.
pub open spec fn settings_file_name() -> Seq<char> {
    "toolbox.toml"@
}

/// Whether the file is one that is known to hold the forbidden text: the
/// settings file.
pub fn is_ignored_file(file_name: &Option<String>) -> (r: bool)
    ensures
        r == (match file_name {
            Some(n) => n@ == settings_file_name(),
            None => false,
        }),
{
    match file_name {
        Some(n) => {
            let settings = String::from_str("toolbox.toml");
            *n == settings
        },
        None => false,
    }
}

/// The diagnostic for a match in the line with index `index`.
pub open spec fn match_diagnostic(
    path: Seq<char>,
    index: u64,
    severity: Severity,
    code: Seq<char>,
    found: (nat, nat, Seq<char>),
) -> DiagnosticView {
    DiagnosticView {
        path,
        range: Some(
            Range {
                start: Position { line: index, character: found.0 as u64 },
                end: Position { line: index, character: found.1 as u64 },
            },
        ),
        severity,
        code,
        message: "Found '"@ + found.2 + "'"@,
        replacements: None,
    }
}

/// The diagnostics of one line, given what the two expressions matched in
/// it: an error for text that must not land, then a warning for a note of
/// an open task.
pub open spec fn findings_of(
    path: Seq<char>,
    index: u64,
    dnl: Option<(nat, nat, Seq<char>)>,
    todo: Option<(nat, nat, Seq<char>)>,
) -> Seq<DiagnosticView> {
    (match dnl {
        Some(m) => seq![match_diagnostic(path, index, Severity::Error, "do-not-land"@, m)],
        None => Seq::empty(),
    }) + (match todo {
        Some(m) => seq![match_diagnostic(path, index, Severity::Warning, "todo"@, m)],
        None => Seq::empty(),
    })
}

/// Builds the diagnostic for a match.
fn match_found(path: &str, index: u64, severity: Severity, code: &str, found: &Capture) -> (r:
    Diagnostic)
    ensures
        r@ == match_diagnostic(path@, index, severity, code@, found@),
{
    Diagnostic {
        path: path.to_owned(),
        range: Some(
            Range {
                start: Position { line: index, character: found.start as u64 },
                end: Position { line: index, character: found.end as u64 },
            },
        ),
        severity,
        code: code.to_owned(),
        message: concat3("Found '", found.text.as_str(), "'"),
        replacements: None,
    }
}

/// Reports what the two expressions matched in the line with index `index`.
pub fn line_findings(path: &str, index: u64, dnl: &Option<Capture>, todo: &Option<Capture>) -> (r:
    Vec<Diagnostic>)
    ensures
        views(r@) == findings_of(path@, index, capture_view(*dnl), capture_view(*todo)),
{
    let mut ret: Vec<Diagnostic> = Vec::new();
    if let Some(m) = dnl {
        ret.push(match_found(path, index, Severity::Error, "do-not-land", m));
    }
    if let Some(m) = todo {
        ret.push(match_found(path, index, Severity::Warning, "todo", m));
    }
    assert(views(ret@) =~= findings_of(path@, index, capture_view(*dnl), capture_view(*todo)));
    ret
}

/// What the search for text that must not land gives in `line`: nothing
/// where the search is off or the line holds the text that exempts it.
pub open spec fn dnl_match(line: Seq<char>, dnl_on: bool) -> Option<(nat, nat, Seq<char>)> {
    if dnl_on && !contains_text(line, DNL_IGNORE@) {
        regex_capture_of(DNL_PATTERN@, line, 0)
    } else {
        None
    }
}

/// What the search for notes of open tasks gives in `line`: nothing where
/// the search is off or the line holds the text that exempts it.
pub open spec fn todo_match(line: Seq<char>, todo_on: bool) -> Option<(nat, nat, Seq<char>)> {
    if todo_on && !contains_text(line, TODO_IGNORE@) {
        regex_capture_of(TODO_PATTERN@, line, 1)
    } else {
        None
    }
}

/// The diagnostics of the first `n` lines of a file.
pub open spec fn lines_findings(
    path: Seq<char>,
    lines: Seq<Seq<char>>,
    dnl_on: bool,
    todo_on: bool,
    n: nat,
) -> Seq<DiagnosticView>
    decreases n,
{
    if n == 0 || n > lines.len() {
        Seq::empty()
    } else {
        lines_findings(path, lines, dnl_on, todo_on, (n - 1) as nat) + findings_of(
            path,
            (n - 1) as u64,
            dnl_match(lines[n - 1], dnl_on),
            todo_match(lines[n - 1], todo_on),
        )
    }
}

/// Whether the file is looked into at all: it is no binary file, it is not
/// the settings file, and it is not empty. A file whose first bytes could
/// not be read counts as binary.
pub open spec fn is_scanned(file: SourceFileView) -> bool {
    &&& file.head is Some && !has_zero_byte(file.head->0)
    &&& !(file.file_name is Some && file.file_name->0 == settings_file_name())
    &&& file.lines.len() > 0 && file.lines[0].len() > 0
}

/// The diagnostics of one file. Text that must not land is searched for
/// only in the working copy, not where the run looks at upstream.
pub open spec fn file_findings(file: SourceFileView, dnl_enabled: bool, todo_enabled: bool, upstream: bool)
    -> Seq<DiagnosticView> {
    if is_scanned(file) {
        lines_findings(
            file.path,
            file.lines,
            dnl_enabled && !upstream,
            todo_enabled,
            file.lines.len(),
        )
    } else {
        Seq::empty()
    }
}

/// Scans one file for text that must not land and for notes of open tasks.
pub fn pls_no_land_impl(file: &SourceFile, run: &Run) -> (r: Vec<Diagnostic>)
    ensures
        views(r@) == file_findings(
            file@,
            run.config.donotland.enabled,
            run.config.todo.enabled,
            run.is_upstream,
        ),
{
    let mut ret: Vec<Diagnostic> = Vec::new();
    let binary = match &file.head {
        Some(h) => is_binary_file(h),
        None => true,
    };
    if binary || is_ignored_file(&file.file_name) {
        assert(views(ret@) =~= Seq::<DiagnosticView>::empty());
        return ret;
    }
    let ghost all = file@.lines;
    assert(all.len() == file.lines.len());
    if file.lines.len() == 0 || file.lines[0].as_str().unicode_len() == 0 {
        assert(file.lines.len() > 0 ==> all[0] == file.lines@[0]@);
        assert(views(ret@) =~= Seq::<DiagnosticView>::empty());
        return ret;
    }
    assert(all[0] == file.lines@[0]@);
    let dnl_on = run.config.donotland.enabled && !run.is_upstream();
    let todo_on = run.config.todo.enabled;
    let mut i: usize = 0;
    assert(views(ret@) =~= lines_findings(file.path@, all, dnl_on, todo_on, 0));
    while i < file.lines.len()
        invariant
            i <= file.lines.len(),
            all == file@.lines,
            views(ret@) == lines_findings(file.path@, all, dnl_on, todo_on, i as nat),
        decreases file.lines.len() - i,
    {
        let line = file.lines[i].as_str();
        assert(all[i as int] == line@);
        let dnl = if dnl_on && !text_contains(line, DNL_IGNORE) {
            regex_capture(DNL_PATTERN, line, 0)
        } else {
            None
        };
        let todo = if todo_on && !text_contains(line, TODO_IGNORE) {
            regex_capture(TODO_PATTERN, line, 1)
        } else {
            None
        };
        let mut found = line_findings(file.path.as_str(), i as u64, &dnl, &todo);
        proof {
            lemma_views_add(ret@, found@);
        }
        ret.append(&mut found);
        i += 1;
    }
    ret
}

/// The diagnostics of the first `n` files, in order.
pub open spec fn files_findings(
    files: Seq<SourceFileView>,
    dnl_enabled: bool,
    todo_enabled: bool,
    upstream: bool,
    n: nat,
) -> Seq<DiagnosticView>
    decreases n,
{
    if n == 0 || n > files.len() {
        Seq::empty()
    } else {
        files_findings(files, dnl_enabled, todo_enabled, upstream, (n - 1) as nat) + file_findings(
            files[n - 1],
            dnl_enabled,
            todo_enabled,
            upstream,
        )
    }
}

/// Scans the candidate files for text that must not land and for notes of
/// open tasks. Reports nothing where both searches are switched off.
pub fn pls_no_land(run: &Run, files: &Vec<SourceFile>) -> (r: Vec<Diagnostic>)
    ensures
        views(r@) == (if !run.config.donotland.enabled && !run.config.todo.enabled {
            Seq::empty()
        } else {
            files_findings(
                views(files@),
                run.config.donotland.enabled,
                run.config.todo.enabled,
                run.is_upstream,
                files.len() as nat,
            )
        }),
{
    let mut ret: Vec<Diagnostic> = Vec::new();
    if !run.config.donotland.enabled && !run.config.todo.enabled {
        assert(views(ret@) =~= Seq::<DiagnosticView>::empty());
        return ret;
    }
    let mut i: usize = 0;
    assert(views(ret@) =~= Seq::<DiagnosticView>::empty());
    while i < files.len()
        invariant
            i <= files.len(),
            views(ret@) == files_findings(
                views(files@),
                run.config.donotland.enabled,
                run.config.todo.enabled,
                run.is_upstream,
                i as nat,
            ),
        decreases files.len() - i,
    {
        let file = &files[i];
        assert(views(files@)[i as int] == file@);
        let mut found = pls_no_land_impl(file, run);
        proof {
            lemma_views_add(ret@, found@);
        }
        ret.append(&mut found);
        i += 1;
    }
    ret
}

} // verus!
