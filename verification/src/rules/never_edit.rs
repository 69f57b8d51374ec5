//! Protected paths: files that match one of the configured glob patterns
//! must be neither modified nor deleted.

use crate::config::NeverEditConf;
use crate::diagnostic::{
    lemma_views_add, lemma_views_push, views, Diagnostic, DiagnosticView, Severity,
};
use crate::git::{FileChanges, FileStatus};
use crate::outside::{debug_quoted, debug_quoted_of, glob_match, glob_matches};
use crate::run::Run;
use crate::text::{concat, decimal, decimal_of, texts};
use vstd::prelude::*;
use vstd::string::*;

verus! {

/// Whether one of the glob patterns matches the path.
pub open spec fn is_protected(globs: Seq<Seq<char>>, path: Seq<char>) -> bool {
    exists|i: int| 0 <= i < globs.len() && glob_matches(#[trigger] globs[i], path)
}

/// Tests whether one of the configured glob patterns matches `file_path`.
pub fn is_never_edit(file_path: &str, config: &NeverEditConf) -> (r: bool)
    ensures
        r == is_protected(texts(config.paths@), file_path@),
{
    let mut i: usize = 0;
    while i < config.paths.len()
        invariant
            i <= config.paths.len(),
            forall|k: int|
                0 <= k < i ==> !glob_matches(#[trigger] texts(config.paths@)[k], file_path@),
        decreases config.paths.len() - i,
    {
        assert(texts(config.paths@)[i as int] == config.paths@[i as int]@);
        if glob_match(config.paths[i].as_str(), file_path) {
            return true;
        }
        i += 1;
    }
    false
}

/// The candidate files that are protected, in their order.
pub open spec fn protected_among(globs: Seq<Seq<char>>, candidates: Seq<Seq<char>>) -> Seq<
    Seq<char>,
> {
    candidates.filter(|c: Seq<char>| is_protected(globs, c))
}

/// Picks the candidate files of the run that are protected.
pub fn protected_files(run: &Run) -> (r: Vec<String>)
    ensures
        texts(r@) == protected_among(texts(run.config.neveredit.paths@), texts(run.paths@)),
{
    let mut ret: Vec<String> = Vec::new();
    let ghost all = texts(run.paths@);
    let ghost p = |c: Seq<char>| is_protected(texts(run.config.neveredit.paths@), c);
    let mut i: usize = 0;
    assert(all.take(0).filter(p) =~= Seq::<Seq<char>>::empty()) by {
        reveal(Seq::filter);
    }
    assert(texts(ret@) =~= all.take(0).filter(p));
    while i < run.paths.len()
        invariant
            i <= run.paths.len(),
            all == texts(run.paths@),
            p == |c: Seq<char>| is_protected(texts(run.config.neveredit.paths@), c),
            texts(ret@) == all.take(i as int).filter(p),
        decreases run.paths.len() - i,
    {
        let path = &run.paths[i];
        proof {
            assert(all[i as int] == path@);
            assert(all.take(i + 1).drop_last() =~= all.take(i as int));
            assert(all.take(i + 1).last() == path@);
            reveal(Seq::filter);
        }
        if is_never_edit(path.as_str(), &run.config.neveredit) {
            let copy = path.clone();
            assert(texts(ret@.push(copy)) =~= texts(ret@).push(copy@));
            ret.push(copy);
        }
        i += 1;
    }
    assert(all.take(run.paths.len() as int) =~= all);
    ret
}

/// What looking on disk for the files of a glob pattern gave.
#[derive(Clone, Copy, Debug, PartialEq, Eq, Structural)]
pub enum GlobProbe {
    /// The text is no glob pattern
    Invalid,
    /// No file matches the pattern
    NoMatch,
    /// Some file matches the pattern
    Matches,
}

/// Why the rule could not be applied.
#[derive(Clone, Copy, Debug, PartialEq, Eq, Structural)]
pub enum NeverEditError {
    /// There is not one probe for each configured pattern
    ProbeMismatch,
}

/// A diagnostic about the settings or a file, without a range.
pub open spec fn plain_diagnostic(
    path: Seq<char>,
    severity: Severity,
    code: Seq<char>,
    message: Seq<char>,
) -> DiagnosticView {
    DiagnosticView { path, range: None, severity, code, message, replacements: None }
}

/// The warning about a glob pattern that protects nothing, if it does.
pub open spec fn glob_diagnostic(config_path: Seq<char>, glob: Seq<char>, probe: GlobProbe)
    -> Seq<DiagnosticView> {
    match probe {
        GlobProbe::Matches => Seq::empty(),
        GlobProbe::NoMatch => seq![
            plain_diagnostic(
                config_path,
                Severity::Warning,
                "never-edit-bad-config"@,
                debug_quoted_of(glob) + " does not protect any existing files"@,
            ),
        ],
        GlobProbe::Invalid => seq![
            plain_diagnostic(
                config_path,
                Severity::Warning,
                "never-edit-bad-config"@,
                debug_quoted_of(glob) + " is not a valid glob pattern"@,
            ),
        ],
    }
}

/// The warnings about the first `n` glob patterns.
pub open spec fn glob_diagnostics(
    config_path: Seq<char>,
    globs: Seq<Seq<char>>,
    probes: Seq<GlobProbe>,
    n: nat,
) -> Seq<DiagnosticView>
    decreases n,
{
    if n == 0 || n > globs.len() || n > probes.len() {
        Seq::empty()
    } else {
        glob_diagnostics(config_path, globs, probes, (n - 1) as nat) + glob_diagnostic(
            config_path,
            globs[n - 1],
            probes[n - 1],
        )
    }
}

/// The diagnostic about a protected file, given how it changed, if it did.
pub open spec fn status_diagnostic(file: Seq<char>, statuses: Map<Seq<char>, FileStatus>) -> Seq<
    DiagnosticView,
> {
    if statuses.contains_key(file) && statuses[file] == FileStatus::Modified {
        seq![
            plain_diagnostic(
                file,
                Severity::Error,
                "never-edit-modified"@,
                "file is protected and should not be modified"@,
            ),
        ]
    } else if statuses.contains_key(file) && statuses[file] == FileStatus::Deleted {
        seq![
            plain_diagnostic(
                file,
                Severity::Warning,
                "never-edit-deleted"@,
                "file is protected and should not be deleted"@,
            ),
        ]
    } else {
        Seq::empty()
    }
}

/// The diagnostics about the first `n` protected files.
pub open spec fn status_diagnostics(
    files: Seq<Seq<char>>,
    statuses: Map<Seq<char>, FileStatus>,
    n: nat,
) -> Seq<DiagnosticView>
    decreases n,
{
    if n == 0 || n > files.len() {
        Seq::empty()
    } else {
        status_diagnostics(files, statuses, (n - 1) as nat) + status_diagnostic(
            files[n - 1],
            statuses,
        )
    }
}

/// The note that says how many protected files were checked.
pub open spec fn checked_note(count: nat) -> DiagnosticView {
    plain_diagnostic(
        Seq::empty(),
        Severity::Note,
        "toolbox-perf"@,
        decimal_of(count) + " protected files checked"@,
    )
}

/// The diagnostics of the rule.
///
/// Nothing where the rule is switched off. One warning where no pattern is
/// configured. Else, unless the run looks at upstream, a warning for each
/// pattern that is invalid or protects no file; and, where a candidate file
/// is protected, an error for each protected file that was modified, a
/// warning for each that was deleted, and a note with their number.
pub open spec fn never_edit_verdict(
    enabled: bool,
    upstream: bool,
    config_path: Seq<char>,
    globs: Seq<Seq<char>>,
    probes: Seq<GlobProbe>,
    candidates: Seq<Seq<char>>,
    statuses: Map<Seq<char>, FileStatus>,
) -> Result<Seq<DiagnosticView>, NeverEditError> {
    if !enabled {
        Ok(Seq::empty())
    } else if globs.len() == 0 && !upstream {
        Ok(
            seq![
                plain_diagnostic(
                    config_path,
                    Severity::Warning,
                    "never-edit-config"@,
                    "no protected paths provided in config"@,
                ),
            ],
        )
    } else if !upstream && probes.len() != globs.len() {
        Err(NeverEditError::ProbeMismatch)
    } else {
        let about_globs = if upstream {
            Seq::empty()
        } else {
            glob_diagnostics(config_path, globs, probes, globs.len())
        };
        let protected = protected_among(globs, candidates);
        if protected.len() == 0 {
            Ok(about_globs)
        } else {
            Ok(
                about_globs + status_diagnostics(protected, statuses, protected.len()).push(
                    checked_note(protected.len()),
                ),
            )
        }
    }
}

/// Builds a diagnostic without a range.
fn plain(path: &str, severity: Severity, code: &str, message: String) -> (r: Diagnostic)
    ensures
        r@ == plain_diagnostic(path@, severity, code@, message@),
{
    Diagnostic {
        path: path.to_owned(),
        range: None,
        severity,
        code: code.to_owned(),
        message,
        replacements: None,
    }
}

/// The warnings about the configured patterns.
fn about_globs(config_path: &str, globs: &Vec<String>, probes: &Vec<GlobProbe>) -> (r: Vec<
    Diagnostic,
>)
    requires
        probes.len() == globs.len(),
    ensures
        views(r@) == glob_diagnostics(config_path@, texts(globs@), probes@, globs.len() as nat),
{
    let mut ret: Vec<Diagnostic> = Vec::new();
    let mut i: usize = 0;
    assert(views(ret@) =~= glob_diagnostics(config_path@, texts(globs@), probes@, 0));
    while i < globs.len()
        invariant
            i <= globs.len(),
            probes.len() == globs.len(),
            views(ret@) == glob_diagnostics(config_path@, texts(globs@), probes@, i as nat),
        decreases globs.len() - i,
    {
        let glob = globs[i].as_str();
        assert(texts(globs@)[i as int] == glob@);
        let ghost before = views(ret@);
        match probes[i] {
            GlobProbe::Matches => {},
            GlobProbe::NoMatch => {
                let message = concat(
                    debug_quoted(glob).as_str(),
                    " does not protect any existing files",
                );
                let diag = plain(config_path, Severity::Warning, "never-edit-bad-config", message);
                proof {
                    lemma_views_push(ret@, diag);
                }
                ret.push(diag);
            },
            GlobProbe::Invalid => {
                let message = concat(debug_quoted(glob).as_str(), " is not a valid glob pattern");
                let diag = plain(config_path, Severity::Warning, "never-edit-bad-config", message);
                proof {
                    lemma_views_push(ret@, diag);
                }
                ret.push(diag);
            },
        }
        assert(views(ret@) =~= before + glob_diagnostic(config_path@, glob@, probes@[i as int]));
        i += 1;
    }
    ret
}

/// The diagnostics about the protected files.
fn about_files(protected: &Vec<String>, modified: &FileChanges) -> (r: Vec<Diagnostic>)
    ensures
        views(r@) == status_diagnostics(texts(protected@), modified.paths@, protected.len() as nat),
{
    let mut ret: Vec<Diagnostic> = Vec::new();
    let mut i: usize = 0;
    assert(views(ret@) =~= status_diagnostics(texts(protected@), modified.paths@, 0));
    while i < protected.len()
        invariant
            i <= protected.len(),
            views(ret@) == status_diagnostics(texts(protected@), modified.paths@, i as nat),
        decreases protected.len() - i,
    {
        let file = protected[i].as_str();
        assert(texts(protected@)[i as int] == file@);
        let ghost before = views(ret@);
        match modified.paths.get(file) {
            Some(FileStatus::Modified) => {
                let diag = plain(
                    file,
                    Severity::Error,
                    "never-edit-modified",
                    String::from_str("file is protected and should not be modified"),
                );
                proof {
                    lemma_views_push(ret@, diag);
                }
                ret.push(diag);
            },
            Some(FileStatus::Deleted) => {
                let diag = plain(
                    file,
                    Severity::Warning,
                    "never-edit-deleted",
                    String::from_str("file is protected and should not be deleted"),
                );
                proof {
                    lemma_views_push(ret@, diag);
                }
                ret.push(diag);
            },
            _ => {},
        }
        assert(views(ret@) =~= before + status_diagnostic(file@, modified.paths@));
        i += 1;
    }
    ret
}

/// Applies the rule, given what looking on disk gave for each configured
/// pattern, in their order, and the changes of the working copy.
pub fn never_edit(run: &Run, probes: &Vec<GlobProbe>, modified: &FileChanges) -> (r: Result<
    Vec<Diagnostic>,
    NeverEditError,
>)
    ensures
        match never_edit_verdict(
            run.config.neveredit.enabled,
            run.is_upstream,
            run.config_path@,
            texts(run.config.neveredit.paths@),
            probes@,
            texts(run.paths@),
            modified.paths@,
        ) {
            Ok(d) => r is Ok && views(r->Ok_0@) == d,
            Err(e) => r == Err::<Vec<Diagnostic>, NeverEditError>(e),
        },
{
    let config = &run.config.neveredit;
    let mut diagnostics: Vec<Diagnostic> = Vec::new();
    assert(texts(config.paths@).len() == config.paths.len());
    if !config.enabled {
        assert(views(diagnostics@) =~= Seq::<DiagnosticView>::empty());
        return Ok(diagnostics);
    }
    if config.paths.len() == 0 && !run.is_upstream() {
        let diag = plain(
            run.config_path.as_str(),
            Severity::Warning,
            "never-edit-config",
            String::from_str("no protected paths provided in config"),
        );
        proof {
            lemma_views_push(diagnostics@, diag);
        }
        diagnostics.push(diag);
        assert(views(diagnostics@) =~= seq![diag@]);
        return Ok(diagnostics);
    }
    if !run.is_upstream() {
        if probes.len() != config.paths.len() {
            return Err(NeverEditError::ProbeMismatch);
        }
        diagnostics = about_globs(run.config_path.as_str(), &config.paths, probes);
    } else {
        assert(views(diagnostics@) =~= Seq::<DiagnosticView>::empty());
    }
    let protected = protected_files(run);
    assert(texts(protected@).len() == protected.len());
    if protected.len() == 0 {
        return Ok(diagnostics);
    }
    let ghost about = views(diagnostics@);
    let mut found = about_files(&protected, modified);
    let ghost statuses = views(found@);
    proof {
        lemma_views_add(diagnostics@, found@);
    }
    diagnostics.append(&mut found);
    let note = plain(
        "",
        Severity::Note,
        "toolbox-perf",
        concat(decimal(protected.len() as u64).as_str(), " protected files checked"),
    );
    proof {
        reveal_strlit("");
        assert(""@ =~= Seq::<char>::empty());
        lemma_views_push(diagnostics@, note);
        assert((about + statuses).push(note@) =~= about + statuses.push(note@));
    }
    diagnostics.push(note);
    Ok(diagnostics)
}

} // verus!
