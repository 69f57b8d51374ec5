//! Checking a block whose source is a file of another repository: getting a
//! clone, reading the last commit, and comparing it with the lock hash.

use crate::diagnostic::{views, Diagnostic, DiagnosticView, Replacement, Severity};
use crate::rules::if_change_then_change::{
    block_diagnostic, block_diagnostic_of, IctcBlock, IctcBlockView, RemoteLocation,
    RemoteLocationView,
};
use crate::rules::remote_location::{replacement_for_hash, short_hash, short_hash_of};
use crate::text::{
    chars_of, concat, concat4, exactly, find_char, first_match, starts_with, trim, trimmed_range,
};
use vstd::prelude::*;
use vstd::string::*;

verus! {

/// The most recent commit that touched a file.
#[derive(Debug)]
pub struct Commit {
    pub hash: String,
    pub date: String,
}

/// Mathematical value of a [`Commit`].
pub struct CommitView {
    pub hash: Seq<char>,
    pub date: Seq<char>,
}

impl View for Commit {
    type V = CommitView;

    open spec fn view(&self) -> CommitView {
        CommitView { hash: self.hash@, date: self.date@ }
    }
}

/// Why the history of a file gave no commit.
#[derive(Clone, Copy, Debug, PartialEq, Eq, Structural)]
pub enum HistoryError {
    /// The file has no history in the clone
    NoHistory,
}

/// The commit that the answer to a history query names. The answer holds
/// the hash of the most recent commit on its first line and the date of its
/// author on the second; an answer without a hash means that the file has
/// no history.
pub open spec fn last_commit_of(output: Seq<char>) -> Result<CommitView, HistoryError> {
    let first_end = first_match(output, 0, exactly('\n'));
    let second_start = if first_end < output.len() {
        first_end + 1
    } else {
        first_end
    };
    let second_end = first_match(output, second_start, exactly('\n'));
    let hash = trim(output.subrange(0, first_end));
    if hash.len() == 0 {
        Err(HistoryError::NoHistory)
    } else {
        Ok(CommitView { hash, date: trim(output.subrange(second_start, second_end)) })
    }
}

/// Reads the answer to a history query for the most recent commit of a
/// file.
pub fn parse_last_commit(output: &str) -> (r: Result<Commit, HistoryError>)
    ensures
        match r {
            Ok(c) => last_commit_of(output@) == Ok::<CommitView, HistoryError>(c@),
            Err(e) => last_commit_of(output@) == Err::<CommitView, HistoryError>(e),
        },
{
    let chars = chars_of(output);
    let first_end = find_char(&chars, 0, '\n');
    let second_start = if first_end < chars.len() {
        first_end + 1
    } else {
        first_end
    };
    let second_end = find_char(&chars, second_start, '\n');
    let hash = trimmed_range(output, 0, first_end);
    if hash.as_str().unicode_len() == 0 {
        Err(HistoryError::NoHistory)
    } else {
        Ok(Commit { hash, date: trimmed_range(output, second_start, second_end) })
    }
}

/// How resolving a reference to a file of another repository ended.
#[derive(Debug)]
pub enum RemoteOutcome {
    /// No clone could be had; the diagnostic says why
    CloneFailed(Diagnostic),
    /// The clone has no history for the file; the text says why
    HistoryFailed(String),
    /// The last commit that touched the file
    LastCommit(Commit),
}

/// Mathematical value of a [`RemoteOutcome`].
pub enum RemoteOutcomeView {
    CloneFailed(DiagnosticView),
    HistoryFailed(Seq<char>),
    LastCommit(CommitView),
}

impl View for RemoteOutcome {
    type V = RemoteOutcomeView;

    open spec fn view(&self) -> RemoteOutcomeView {
        match self {
            RemoteOutcome::CloneFailed(d) => RemoteOutcomeView::CloneFailed(d@),
            RemoteOutcome::HistoryFailed(e) => RemoteOutcomeView::HistoryFailed(e@),
            RemoteOutcome::LastCommit(c) => RemoteOutcomeView::LastCommit(c@),
        }
    }
}

/// What the check of a remote source found, and whether the target is still
/// to be checked.
pub struct RemoteVerdict {
    pub diagnostics: Seq<DiagnosticView>,
    pub check_target: bool,
}

/// The warning about the lock hash of `remote`, with the edit that records
/// `hash`.
pub open spec fn lock_hash_diagnostic(
    remote: RemoteLocationView,
    block: IctcBlockView,
    code: Seq<char>,
    message: Seq<char>,
    hash: Seq<char>,
) -> DiagnosticView {
    DiagnosticView {
        path: block.path,
        range: Some(block.range()),
        severity: Severity::Warning,
        code,
        message,
        replacements: Some(seq![replacement_for_hash(remote, hash)]),
    }
}

/// The diagnostic for a clone that failed.
pub open spec fn clone_failed_diagnostic(
    remote: RemoteLocationView,
    block: IctcBlockView,
    stderr: Seq<char>,
) -> DiagnosticView {
    block_diagnostic_of(
        block,
        Severity::Warning,
        "if-change-clone-failed"@,
        "Failed to clone remote repo at "@ + remote.repo + ": "@ + stderr,
    )
}

/// The check of a block whose source is a file of another repository.
///
/// A failed clone hands its diagnostic on, and a file without history is an
/// error; neither checks the target. A reference without a lock hash gets a
/// warning with the edit that inserts the hash, and the target is not
/// checked. A lock hash that the last commit's hash starts with is in order:
/// nothing is reported and the target is not checked. Any other lock hash
/// gets a warning with the edit that updates it, and the target is checked.
pub open spec fn remote_verdict(
    remote: RemoteLocationView,
    block: IctcBlockView,
    outcome: RemoteOutcomeView,
) -> RemoteVerdict {
    match outcome {
        RemoteOutcomeView::CloneFailed(d) => RemoteVerdict {
            diagnostics: seq![d],
            check_target: false,
        },
        RemoteOutcomeView::HistoryFailed(e) => RemoteVerdict {
            diagnostics: seq![
                block_diagnostic_of(
                    block,
                    Severity::Error,
                    "if-change-git-error"@,
                    "Failed to get last commit of remote file "@ + remote.path + ": "@ + e,
                ),
            ],
            check_target: false,
        },
        RemoteOutcomeView::LastCommit(commit) => {
            let short = short_hash_of(commit.hash);
            if remote.lock_hash.len() == 0 {
                RemoteVerdict {
                    diagnostics: seq![
                        lock_hash_diagnostic(
                            remote,
                            block,
                            "if-change-update-lock-hash"@,
                            "Hash for IfChange required; should be "@ + short,
                            short,
                        ),
                    ],
                    check_target: false,
                }
            } else if remote.lock_hash.is_prefix_of(commit.hash) {
                RemoteVerdict { diagnostics: Seq::empty(), check_target: false }
            } else {
                RemoteVerdict {
                    diagnostics: seq![
                        lock_hash_diagnostic(
                            remote,
                            block,
                            "if-change-remote-updated-new-hash"@,
                            "Remote file changed; new hash is "@ + short,
                            short,
                        ),
                    ],
                    check_target: true,
                }
            }
        },
    }
}

/// Builds the warning about the lock hash of `remote`.
fn lock_hash_warning(
    remote: &RemoteLocation,
    block: &IctcBlock,
    code: &str,
    message: String,
    hash: &str,
) -> (r: Diagnostic)
    requires
        block@.has_range(),
        remote@.wf(),
    ensures
        r@ == lock_hash_diagnostic(remote@, block@, code@, message@, hash@),
{
    let mut replacements: Vec<Replacement> = Vec::new();
    replacements.push(remote.get_replacement_for_hash(hash));
    assert(views(replacements@) =~= seq![replacement_for_hash(remote@, hash@)]);
    Diagnostic {
        path: block.path.clone(),
        range: Some(block.get_range()),
        severity: Severity::Warning,
        code: code.to_owned(),
        message,
        replacements: Some(replacements),
    }
}

/// Checks a block whose source is a file of another repository, given how
/// resolving the reference ended. Hands back the diagnostics and whether the
/// target is still to be checked.
pub fn remote_diagnostics(remote: &RemoteLocation, block: &IctcBlock, outcome: &RemoteOutcome) -> (r:
    (Vec<Diagnostic>, bool))
    requires
        block@.has_range(),
        remote@.wf(),
    ensures
        views(r.0@) == remote_verdict(remote@, block@, outcome@).diagnostics,
        r.1 == remote_verdict(remote@, block@, outcome@).check_target,
{
    let mut out: Vec<Diagnostic> = Vec::new();
    let ghost verdict = remote_verdict(remote@, block@, outcome@);
    match outcome {
        RemoteOutcome::CloneFailed(diag) => {
            out.push(diag.clone());
            assert(views(out@) =~= verdict.diagnostics);
            (out, false)
        },
        RemoteOutcome::HistoryFailed(e) => {
            let message = concat4(
                "Failed to get last commit of remote file ",
                remote.path.as_str(),
                ": ",
                e.as_str(),
            );
            out.push(
                block_diagnostic(block, Severity::Error, "if-change-git-error", message.as_str()),
            );
            assert(views(out@) =~= verdict.diagnostics);
            (out, false)
        },
        RemoteOutcome::LastCommit(commit) => {
            let short = short_hash(commit.hash.as_str());
            if remote.lock_hash.as_str().unicode_len() == 0 {
                let message = concat("Hash for IfChange required; should be ", short.as_str());
                out.push(
                    lock_hash_warning(
                        remote,
                        block,
                        "if-change-update-lock-hash",
                        message,
                        short.as_str(),
                    ),
                );
                assert(views(out@) =~= verdict.diagnostics);
                (out, false)
            } else if starts_with(commit.hash.as_str(), remote.lock_hash.as_str()) {
                assert(views(out@) =~= verdict.diagnostics);
                (out, false)
            } else {
                let message = concat("Remote file changed; new hash is ", short.as_str());
                out.push(
                    lock_hash_warning(
                        remote,
                        block,
                        "if-change-remote-updated-new-hash",
                        message,
                        short.as_str(),
                    ),
                );
                assert(views(out@) =~= verdict.diagnostics);
                (out, true)
            }
        },
    }
}

/// What happened last while a clone was looked for.
#[derive(Debug)]
pub enum CloneEvent {
    /// Nothing yet
    Started,
    /// The cache directory was looked at
    Probed { exists: bool, is_repository: bool },
    /// The cache directory was removed
    Removed,
    /// The clone command ended
    CloneFinished { success: bool, stderr: String },
}

/// Mathematical value of a [`CloneEvent`].
pub enum CloneEventView {
    Started,
    Probed { exists: bool, is_repository: bool },
    Removed,
    CloneFinished { success: bool, stderr: Seq<char> },
}

impl View for CloneEvent {
    type V = CloneEventView;

    open spec fn view(&self) -> CloneEventView {
        match self {
            CloneEvent::Started => CloneEventView::Started,
            CloneEvent::Probed { exists, is_repository } => CloneEventView::Probed {
                exists: *exists,
                is_repository: *is_repository,
            },
            CloneEvent::Removed => CloneEventView::Removed,
            CloneEvent::CloneFinished { success, stderr } => CloneEventView::CloneFinished {
                success: *success,
                stderr: stderr@,
            },
        }
    }
}

/// What to do next to get a clone.
#[derive(Debug)]
pub enum CloneAction {
    /// Look whether the cache directory exists and is a repository
    ProbeDirectory,
    /// Remove the cache directory and all below it
    RemoveDirectory,
    /// Make a bare, blob-less, shallow clone in the cache directory
    RunClone,
    /// The clone is at this path
    Ready(String),
    /// No clone can be had
    Failed(Diagnostic),
}

/// Mathematical value of a [`CloneAction`].
pub enum CloneActionView {
    ProbeDirectory,
    RemoveDirectory,
    RunClone,
    Ready(Seq<char>),
    Failed(DiagnosticView),
}

impl View for CloneAction {
    type V = CloneActionView;

    open spec fn view(&self) -> CloneActionView {
        match self {
            CloneAction::ProbeDirectory => CloneActionView::ProbeDirectory,
            CloneAction::RemoveDirectory => CloneActionView::RemoveDirectory,
            CloneAction::RunClone => CloneActionView::RunClone,
            CloneAction::Ready(p) => CloneActionView::Ready(p@),
            CloneAction::Failed(d) => CloneActionView::Failed(d@),
        }
    }
}

/// The next step towards a clone of `remote` at `repo_path`.
///
/// A directory that is a repository is used as it is. A directory that is
/// not a repository is removed before anything is cloned into its place;
/// nothing is removed that was not looked at first. A clone that fails ends
/// with a warning that holds what the clone command said.
pub open spec fn clone_step(
    remote: RemoteLocationView,
    block: IctcBlockView,
    repo_path: Seq<char>,
    event: CloneEventView,
) -> CloneActionView {
    match event {
        CloneEventView::Started => CloneActionView::ProbeDirectory,
        CloneEventView::Probed { exists, is_repository } => if !exists {
            CloneActionView::RunClone
        } else if is_repository {
            CloneActionView::Ready(repo_path)
        } else {
            CloneActionView::RemoveDirectory
        },
        CloneEventView::Removed => CloneActionView::RunClone,
        CloneEventView::CloneFinished { success, stderr } => if success {
            CloneActionView::Ready(repo_path)
        } else {
            CloneActionView::Failed(clone_failed_diagnostic(remote, block, stderr))
        },
    }
}

} // verus!
