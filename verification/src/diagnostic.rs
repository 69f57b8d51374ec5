//! Diagnostic records: what every rule reports and what the report writers
//! consume.

use crate::text::{decimal, decimal_of};
use vstd::prelude::*;
use vstd::string::*;

verus! {

/// The views of the elements of `s`, in order.
pub open spec fn views<T: View>(s: Seq<T>) -> Seq<T::V> {
    s.map_values(|t: T| t@)
}

/// Appending an element appends its view.
pub proof fn lemma_views_push<T: View>(s: Seq<T>, x: T)
    ensures
        views(s.push(x)) == views(s).push(x@),
{
    assert(views(s.push(x)) =~= views(s).push(x@));
}

/// The views of a concatenation are the concatenated views.
pub proof fn lemma_views_add<T: View>(s: Seq<T>, t: Seq<T>)
    ensures
        views(s + t) == views(s) + views(t),
{
    assert(views(s + t) =~= views(s) + views(t));
}

/// How serious a diagnostic is.
#[derive(Clone, Copy, Debug, PartialEq, Eq, Structural)]
pub enum Severity {
    Error,
    Warning,
    Note,
    NoneLevel,
}

impl Severity {
    /// The lower-case name of the severity, as reports print it.
    pub open spec fn name(self) -> Seq<char> {
        match self {
            Severity::Error => "error"@,
            Severity::Warning => "warning"@,
            Severity::Note => "note"@,
            Severity::NoneLevel => "none"@,
        }
    }

    /// Renders the severity as its lower-case name.
    pub fn to_string(&self) -> (r: String)
        ensures
            r@ == self.name(),
    {
        match self {
            Severity::Error => String::from_str("error"),
            Severity::Warning => String::from_str("warning"),
            Severity::Note => String::from_str("note"),
            Severity::NoneLevel => String::from_str("none"),
        }
    }
}

/// A point in a text file.
#[derive(Clone, Copy, Debug, PartialEq, Eq, Structural)]
pub struct Position {
    pub line: u64,
    pub character: u64,
}

/// A region of a text file, from `start` up to `end`.
#[derive(Clone, Copy, Debug, PartialEq, Eq, Structural)]
pub struct Range {
    pub start: Position,
    pub end: Position,
}

/// A text edit: the region to delete and what to put in its place.
#[derive(Debug)]
pub struct Replacement {
    pub deleted_region: Range,
    pub inserted_content: String,
}

/// Mathematical value of a [`Replacement`].
pub struct ReplacementView {
    pub deleted_region: Range,
    pub inserted_content: Seq<char>,
}

impl View for Replacement {
    type V = ReplacementView;

    open spec fn view(&self) -> ReplacementView {
        ReplacementView {
            deleted_region: self.deleted_region,
            inserted_content: self.inserted_content@,
        }
    }
}

impl Clone for Replacement {
    fn clone(&self) -> (r: Self)
        ensures
            r@ == self@,
    {
        Replacement {
            deleted_region: self.deleted_region,
            inserted_content: self.inserted_content.clone(),
        }
    }
}

/// One finding of a rule.
#[derive(Debug)]
pub struct Diagnostic {
    pub path: String,
    pub range: Option<Range>,
    pub severity: Severity,
    pub code: String,
    pub message: String,
    pub replacements: Option<Vec<Replacement>>,
}

/// Mathematical value of a [`Diagnostic`].
pub struct DiagnosticView {
    pub path: Seq<char>,
    pub range: Option<Range>,
    pub severity: Severity,
    pub code: Seq<char>,
    pub message: Seq<char>,
    pub replacements: Option<Seq<ReplacementView>>,
}

impl View for Diagnostic {
    type V = DiagnosticView;

    open spec fn view(&self) -> DiagnosticView {
        DiagnosticView {
            path: self.path@,
            range: self.range,
            severity: self.severity,
            code: self.code@,
            message: self.message@,
            replacements: match self.replacements {
                Some(v) => Some(views(v@)),
                None => None,
            },
        }
    }
}

/// Copies a list of replacements.
pub fn clone_replacements(v: &Vec<Replacement>) -> (r: Vec<Replacement>)
    ensures
        views(r@) == views(v@),
{
    let mut r: Vec<Replacement> = Vec::new();
    let mut i: usize = 0;
    while i < v.len()
        invariant
            i <= v.len(),
            r@.len() == i,
            forall|j: int| 0 <= j < i ==> (#[trigger] r@[j])@ == v@[j]@,
        decreases v.len() - i,
    {
        r.push(v[i].clone());
        i += 1;
    }
    assert(views(r@) =~= views(v@));
    r
}

impl Clone for Diagnostic {
    fn clone(&self) -> (r: Self)
        ensures
            r@ == self@,
    {
        Diagnostic {
            path: self.path.clone(),
            range: self.range,
            severity: self.severity,
            code: self.code.clone(),
            message: self.message.clone(),
            replacements: match &self.replacements {
                Some(v) => Some(clone_replacements(v)),
                None => None,
            },
        }
    }
}

/// Copies a list of diagnostics.
pub fn clone_diagnostics(v: &Vec<Diagnostic>) -> (r: Vec<Diagnostic>)
    ensures
        views(r@) == views(v@),
{
    let mut r: Vec<Diagnostic> = Vec::new();
    let mut i: usize = 0;
    while i < v.len()
        invariant
            i <= v.len(),
            r@.len() == i,
            forall|j: int| 0 <= j < i ==> (#[trigger] r@[j])@ == v@[j]@,
        decreases v.len() - i,
    {
        r.push(v[i].clone());
        i += 1;
    }
    assert(views(r@) =~= views(v@));
    r
}

/// The diagnostics of one run, in the order the rules produced them.
pub struct Diagnostics {
    pub diagnostics: Vec<Diagnostic>,
}

impl Default for Diagnostics {
    fn default() -> (r: Self)
        ensures
            r.diagnostics@.len() == 0,
    {
        Diagnostics { diagnostics: Vec::new() }
    }
}

/// A region of a file as a report in the SARIF format gives it.
#[derive(Clone, Copy, Debug, PartialEq, Eq, Structural)]
pub struct SarifRegion {
    pub start_line: i64,
    pub start_column: i64,
    pub end_line: i64,
    pub end_column: i64,
}

/// A proposed edit as a report in the SARIF format gives it.
#[derive(Debug)]
pub struct SarifFix {
    /// The file to edit
    pub uri: String,
    pub deleted_region: SarifRegion,
    pub inserted_content: String,
}

/// Mathematical value of a [`SarifFix`].
pub struct SarifFixView {
    pub uri: Seq<char>,
    pub deleted_region: SarifRegion,
    pub inserted_content: Seq<char>,
}

impl View for SarifFix {
    type V = SarifFixView;

    open spec fn view(&self) -> SarifFixView {
        SarifFixView {
            uri: self.uri@,
            deleted_region: self.deleted_region,
            inserted_content: self.inserted_content@,
        }
    }
}

/// A diagnostic as a report in the SARIF format gives it.
#[derive(Debug)]
pub struct SarifResult {
    pub level: String,
    /// The file that the result is about
    pub uri: String,
    pub region: Option<SarifRegion>,
    pub fixes: Vec<SarifFix>,
    pub message: String,
    pub rule_id: String,
}

/// Mathematical value of a [`SarifResult`].
pub struct SarifResultView {
    pub level: Seq<char>,
    pub uri: Seq<char>,
    pub region: Option<SarifRegion>,
    pub fixes: Seq<SarifFixView>,
    pub message: Seq<char>,
    pub rule_id: Seq<char>,
}

impl View for SarifResult {
    type V = SarifResultView;

    open spec fn view(&self) -> SarifResultView {
        SarifResultView {
            level: self.level@,
            uri: self.uri@,
            region: self.region,
            fixes: views(self.fixes@),
            message: self.message@,
            rule_id: self.rule_id@,
        }
    }
}

impl Range {
    /// Whether the lines and characters of the range, and their successors,
    /// are numbers of the SARIF format.
    pub open spec fn fits_sarif(self) -> bool {
        &&& self.start.line < i64::MAX
        &&& self.start.character < i64::MAX
        &&& self.end.line < i64::MAX
        &&& self.end.character < i64::MAX
    }

    /// The region of a result: lines and columns count from 1, where the
    /// range counts from 0.
    pub open spec fn result_region(self) -> SarifRegion {
        SarifRegion {
            start_line: (self.start.line + 1) as i64,
            start_column: (self.start.character + 1) as i64,
            end_line: (self.end.line + 1) as i64,
            end_column: (self.end.character + 1) as i64,
        }
    }

    /// The region of an edit: the lines are taken as they are, and columns
    /// count from 1.
    pub open spec fn edit_region(self) -> SarifRegion {
        SarifRegion {
            start_line: self.start.line as i64,
            start_column: (self.start.character + 1) as i64,
            end_line: self.end.line as i64,
            end_column: (self.end.character + 1) as i64,
        }
    }
}

impl ReplacementView {
    /// The edit as a fix of the file `uri`.
    pub open spec fn fix(self, uri: Seq<char>) -> SarifFixView {
        SarifFixView {
            uri,
            deleted_region: self.deleted_region.edit_region(),
            inserted_content: self.inserted_content,
        }
    }
}

impl DiagnosticView {
    /// Whether all positions of the diagnostic are numbers of the SARIF
    /// format.
    pub open spec fn fits_sarif(self) -> bool {
        &&& self.range matches Some(r) ==> r.fits_sarif()
        &&& self.replacements matches Some(edits) ==> forall|k: int|
            0 <= k < edits.len() ==> (#[trigger] edits[k]).deleted_region.fits_sarif()
    }

    /// The fixes of the diagnostic, in the order of its edits.
    pub open spec fn fixes(self) -> Seq<SarifFixView> {
        match self.replacements {
            Some(edits) => edits.map_values(|e: ReplacementView| e.fix(self.path)),
            None => Seq::empty(),
        }
    }

    /// The diagnostic as a result.
    pub open spec fn sarif(self) -> SarifResultView {
        SarifResultView {
            level: self.severity.name(),
            uri: self.path,
            region: match self.range {
                Some(r) => Some(r.result_region()),
                None => None,
            },
            fixes: self.fixes(),
            message: self.message,
            rule_id: self.code,
        }
    }

    /// The line that a report in plain text has for the diagnostic.
    pub open spec fn line_text(self) -> Seq<char> {
        match self.range {
            Some(r) => self.path + ":"@ + decimal_of(r.start.line as nat) + ":"@ + decimal_of(
                r.start.character as nat,
            ) + ": "@ + self.message + " ("@ + self.severity.name() + ")"@,
            None => self.path + ": "@ + self.message + " ("@ + self.severity.name() + ")"@,
        }
    }
}

impl Replacement {
    /// The edit as a fix of the file of `diag`.
    pub fn to_fix(&self, diag: &Diagnostic) -> (r: SarifFix)
        requires
            self.deleted_region.fits_sarif(),
        ensures
            r@ == self@.fix(diag.path@),
    {
        let region = self.deleted_region;
        SarifFix {
            uri: diag.path.clone(),
            deleted_region: SarifRegion {
                start_line: region.start.line as i64,
                start_column: region.start.character as i64 + 1,
                end_line: region.end.line as i64,
                end_column: region.end.character as i64 + 1,
            },
            inserted_content: self.inserted_content.clone(),
        }
    }
}

impl Range {
    /// Tests whether the range can be written in the SARIF format.
    pub fn can_be_sarif(&self) -> (r: bool)
        ensures
            r == self.fits_sarif(),
    {
        let max: u64 = 0x7fff_ffff_ffff_ffff;
        self.start.line < max && self.start.character < max && self.end.line < max
            && self.end.character < max
    }
}

impl Diagnostic {
    /// Tests whether the diagnostic can be written in the SARIF format.
    pub fn can_be_sarif(&self) -> (r: bool)
        ensures
            r == self@.fits_sarif(),
    {
        if let Some(range) = &self.range {
            if !range.can_be_sarif() {
                return false;
            }
        }
        if let Some(replacements) = &self.replacements {
            let ghost edits = views(replacements@);
            let mut i: usize = 0;
            while i < replacements.len()
                invariant
                    i <= replacements.len(),
                    edits == views(replacements@),
                    self@.replacements == Some(edits),
                    forall|k: int| 0 <= k < i ==> (#[trigger] edits[k]).deleted_region.fits_sarif(),
                decreases replacements.len() - i,
            {
                assert(edits[i as int] == replacements@[i as int]@);
                if !replacements[i].deleted_region.can_be_sarif() {
                    assert(!self@.replacements->0[i as int].deleted_region.fits_sarif());
                    return false;
                }
                i += 1;
            }
        }
        true
    }

    /// The diagnostic as a result of a report in the SARIF format.
    pub fn to_sarif(&self) -> (r: SarifResult)
        requires
            self@.fits_sarif(),
        ensures
            r@ == self@.sarif(),
    {
        let region = match self.range {
            Some(range) => Some(
                SarifRegion {
                    start_line: range.start.line as i64 + 1,
                    start_column: range.start.character as i64 + 1,
                    end_line: range.end.line as i64 + 1,
                    end_column: range.end.character as i64 + 1,
                },
            ),
            None => None,
        };
        let mut fixes: Vec<SarifFix> = Vec::new();
        if let Some(replacements) = &self.replacements {
            let ghost edits = views(replacements@);
            let mut i: usize = 0;
            while i < replacements.len()
                invariant
                    i <= replacements.len(),
                    edits == views(replacements@),
                    self@.replacements == Some(edits),
                    self@.fits_sarif(),
                    fixes@.len() == i,
                    forall|k: int| 0 <= k < i ==> (#[trigger] fixes@[k])@ == edits[k].fix(self.path@),
                decreases replacements.len() - i,
            {
                assert(edits[i as int] == replacements@[i as int]@);
                assert(self@.replacements->0[i as int].deleted_region.fits_sarif());
                fixes.push(replacements[i].to_fix(self));
                i += 1;
            }
            assert(views(fixes@) =~= self@.fixes());
        } else {
            assert(views(fixes@) =~= self@.fixes());
        }
        SarifResult {
            level: self.severity.to_string(),
            uri: self.path.clone(),
            region,
            fixes,
            message: self.message.clone(),
            rule_id: self.code.clone(),
        }
    }

    /// The line that a report in plain text has for the diagnostic: the
    /// path, the start of the range where there is one, the message and the
    /// severity.
    pub fn to_line(&self) -> (r: String)
        ensures
            r@ == self@.line_text(),
    {
        let mut out = self.path.clone();
        if let Some(range) = &self.range {
            out.append(":");
            out.append(decimal(range.start.line).as_str());
            out.append(":");
            out.append(decimal(range.start.character).as_str());
        }
        out.append(": ");
        out.append(self.message.as_str());
        out.append(" (");
        out.append(self.severity.to_string().as_str());
        out.append(")");
        out
    }
}

/// The lines of the first `n` diagnostics, with a line feed between each two.
pub open spec fn line_texts(diagnostics: Seq<DiagnosticView>, n: nat) -> Seq<char>
    decreases n,
{
    if n == 0 || n > diagnostics.len() {
        Seq::empty()
    } else if n == 1 {
        diagnostics[0].line_text()
    } else {
        line_texts(diagnostics, (n - 1) as nat) + seq!['\n'] + diagnostics[n - 1].line_text()
    }
}

/// Writes the diagnostics as plain text, one line for each.
pub fn generate_line_string(results: &Diagnostics) -> (r: String)
    ensures
        r@ == line_texts(
            views(results.diagnostics@),
            results.diagnostics.len() as nat,
        ),
{
    let list = &results.diagnostics;
    let mut out = String::new();
    let mut i: usize = 0;
    while i < list.len()
        invariant
            i <= list.len(),
            out@ == line_texts(views(list@), i as nat),
        decreases list.len() - i,
    {
        assert(views(list@)[i as int] == list@[i as int]@);
        if i > 0 {
            proof {
                reveal_strlit("\n");
                assert("\n"@ =~= seq!['\n']);
            }
            out.append("\n");
        }
        out.append(list[i].to_line().as_str());
        assert(out@ =~= line_texts(views(list@), (i + 1) as nat));
        i += 1;
    }
    out
}

/// The texts of the first `n` paths, with a comma and a space between each
/// two.
pub open spec fn joined_paths(paths: Seq<Seq<char>>, n: nat) -> Seq<char>
    decreases n,
{
    if n == 0 || n > paths.len() {
        Seq::empty()
    } else if n == 1 {
        paths[0]
    } else {
        joined_paths(paths, (n - 1) as nat) + ", "@ + paths[n - 1]
    }
}

/// The note that closes a report: how many files were processed, how long it
/// took, and which files they were.
pub open spec fn files_processed_note(paths: Seq<Seq<char>>, elapsed: Seq<char>) -> SarifResultView {
    SarifResultView {
        level: Severity::Note.name(),
        uri: Seq::empty(),
        region: None,
        fixes: Seq::empty(),
        message: decimal_of(paths.len()) + " files processed in "@ + elapsed + " files:["@
            + joined_paths(paths, paths.len()) + "]"@,
        rule_id: "toolbox-perf"@,
    }
}

/// Builds the note that closes a report, given the candidate files and the
/// time that the run took, as text.
pub fn files_processed(paths: &Vec<String>, elapsed: &str) -> (r: SarifResult)
    ensures
        r@ == files_processed_note(paths@.map_values(|p: String| p@), elapsed@),
{
    let ghost all = paths@.map_values(|p: String| p@);
    let mut joined = String::new();
    let mut i: usize = 0;
    while i < paths.len()
        invariant
            i <= paths.len(),
            all == paths@.map_values(|p: String| p@),
            joined@ == joined_paths(all, i as nat),
        decreases paths.len() - i,
    {
        assert(all[i as int] == paths@[i as int]@);
        if i > 0 {
            joined.append(", ");
        }
        joined.append(paths[i].as_str());
        assert(joined@ =~= joined_paths(all, (i + 1) as nat));
        i += 1;
    }
    let mut message = decimal(paths.len() as u64);
    message.append(" files processed in ");
    message.append(elapsed);
    message.append(" files:[");
    message.append(joined.as_str());
    message.append("]");
    let fixes: Vec<SarifFix> = Vec::new();
    assert(views(fixes@) =~= Seq::<SarifFixView>::empty());
    SarifResult {
        level: Severity::Note.to_string(),
        uri: String::new(),
        region: None,
        fixes,
        message,
        rule_id: String::from_str("toolbox-perf"),
    }
}

} // verus!
