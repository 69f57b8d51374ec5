//! Curly quotes: each line that holds one is reported, with the edits that
//! put straight quotes in their place.

use crate::diagnostic::{
    lemma_views_add, lemma_views_push, views, Diagnostic, DiagnosticView, Position, Range,
    Replacement, ReplacementView, Severity,
};
use crate::run::{Run, SourceFile, SourceFileView};
use crate::text::{chars_of, concat, decimal, decimal_of};
use vstd::prelude::*;
use vstd::string::*;

verus! {

/// The curly single quotes.
pub open spec fn is_single_curly_quote(c: char) -> bool {
    c == '\u{2018}' || c == '\u{2019}'
}

/// The curly double quotes.
pub open spec fn is_double_curly_quote(c: char) -> bool {
    c == '\u{201C}' || c == '\u{201D}' || c == '\u{201E}' || c == '\u{201F}'
}

/// The edit that puts `straight` in place of the character at index `at` of
/// line `line_no`, lines counted from 1.
pub open spec fn quote_fix(line_no: u64, at: int, straight: char) -> ReplacementView {
    ReplacementView {
        deleted_region: Range {
            start: Position { line: line_no, character: at as u64 },
            end: Position { line: line_no, character: (at + 1) as u64 },
        },
        inserted_content: seq![straight],
    }
}

/// The edits for the curly quotes among the first `n` characters of a line,
/// in the order of the quotes.
pub open spec fn quote_fixes(line: Seq<char>, line_no: u64, n: nat) -> Seq<ReplacementView>
    decreases n,
{
    if n == 0 || n > line.len() {
        Seq::empty()
    } else {
        let before = quote_fixes(line, line_no, (n - 1) as nat);
        let c = line[n - 1];
        if is_single_curly_quote(c) {
            before.push(quote_fix(line_no, n - 1, '\''))
        } else if is_double_curly_quote(c) {
            before.push(quote_fix(line_no, n - 1, '"'))
        } else {
            before
        }
    }
}

/// The diagnostic of the line with index `index` of the file `path`, given
/// the edits for its quotes. There is none where the line has no curly
/// quote. The range reaches from the first quote to behind the last, on the
/// line counted from 0; the edits count lines from 1.
pub open spec fn line_diagnostic(path: Seq<char>, index: nat, fixes: Seq<ReplacementView>) -> Option<
    DiagnosticView,
> {
    if fixes.len() == 0 {
        None
    } else {
        Some(
            DiagnosticView {
                path,
                range: Some(
                    Range {
                        start: Position {
                            line: index as u64,
                            character: fixes[0].deleted_region.start.character,
                        },
                        end: Position {
                            line: index as u64,
                            character: fixes.last().deleted_region.end.character,
                        },
                    },
                ),
                severity: Severity::Error,
                code: "no-curly-quotes"@,
                message: "Found curly quote on line "@ + decimal_of(index + 1),
                replacements: Some(fixes),
            },
        )
    }
}

/// The diagnostics of the first `n` lines of a file.
pub open spec fn quote_diagnostics(path: Seq<char>, lines: Seq<Seq<char>>, n: nat) -> Seq<
    DiagnosticView,
>
    decreases n,
{
    if n == 0 || n > lines.len() {
        Seq::empty()
    } else {
        let before = quote_diagnostics(path, lines, (n - 1) as nat);
        let line = lines[n - 1];
        match line_diagnostic(
            path,
            (n - 1) as nat,
            quote_fixes(line, n as u64, line.len()),
        ) {
            Some(d) => before.push(d),
            None => before,
        }
    }
}

/// The edits for the curly quotes of one line.
fn fixes_of_line(line: &str, line_no: u64) -> (r: Vec<Replacement>)
    ensures
        views(r@) == quote_fixes(line@, line_no, line@.len()),
{
    let chars = chars_of(line);
    let mut fixes: Vec<Replacement> = Vec::new();
    let mut i: usize = 0;
    assert(views(fixes@) =~= quote_fixes(line@, line_no, 0));
    while i < chars.len()
        invariant
            i <= chars.len(),
            chars@ == line@,
            views(fixes@) == quote_fixes(line@, line_no, i as nat),
        decreases chars.len() - i,
    {
        let c = chars[i];
        let straight: Option<&str> = if c == '\u{2018}' || c == '\u{2019}' {
            Some("'")
        } else if c == '\u{201C}' || c == '\u{201D}' || c == '\u{201E}' || c == '\u{201F}' {
            Some("\"")
        } else {
            None
        };
        if let Some(text) = straight {
            proof {
                reveal_strlit("'");
                reveal_strlit("\"");
                assert("'"@ =~= seq!['\'']);
                assert("\""@ =~= seq!['"']);
            }
            let fix = Replacement {
                deleted_region: Range {
                    start: Position { line: line_no, character: i as u64 },
                    end: Position { line: line_no, character: i as u64 + 1 },
                },
                inserted_content: text.to_owned(),
            };
            proof {
                lemma_views_push(fixes@, fix);
            }
            fixes.push(fix);
        }
        i += 1;
    }
    fixes
}

/// Scans the lines of the file `path` for curly quotes.
pub fn no_curly_quotes_impl(path: &str, lines: &Vec<String>) -> (r: Vec<Diagnostic>)
    ensures
        views(r@) == quote_diagnostics(
            path@,
            lines@.map_values(|l: String| l@),
            lines.len() as nat,
        ),
{
    let mut ret: Vec<Diagnostic> = Vec::new();
    let ghost all = lines@.map_values(|l: String| l@);
    let mut i: usize = 0;
    assert(views(ret@) =~= quote_diagnostics(path@, all, 0));
    while i < lines.len()
        invariant
            i <= lines.len(),
            all == lines@.map_values(|l: String| l@),
            views(ret@) == quote_diagnostics(path@, all, i as nat),
        decreases lines.len() - i,
    {
        let line = lines[i].as_str();
        assert(all[i as int] == line@);
        let fixes = fixes_of_line(line, (i + 1) as u64);
        if fixes.len() > 0 {
            let first = fixes[0].deleted_region.start.character;
            let last = fixes[fixes.len() - 1].deleted_region.end.character;
            let number = decimal((i + 1) as u64);
            let ghost fix_views = views(fixes@);
            proof {
                assert(fix_views[0] == fixes@[0]@);
                assert(fix_views.last() == fixes@[fixes.len() - 1]@);
            }
            let diag = Diagnostic {
                path: path.to_owned(),
                range: Some(
                    Range {
                        start: Position { line: i as u64, character: first },
                        end: Position { line: i as u64, character: last },
                    },
                ),
                severity: Severity::Error,
                code: "no-curly-quotes".to_owned(),
                message: concat(
                    "Found curly quote on line ",
                    number.as_str(),
                ),
                replacements: Some(fixes),
            };
            proof {
                lemma_views_push(ret@, diag);
            }
            ret.push(diag);
        }
        i += 1;
    }
    ret
}

/// The diagnostics of the first `n` files, in order.
pub open spec fn files_quote_diagnostics(files: Seq<SourceFileView>, n: nat) -> Seq<DiagnosticView>
    decreases n,
{
    if n == 0 || n > files.len() {
        Seq::empty()
    } else {
        files_quote_diagnostics(files, (n - 1) as nat) + quote_diagnostics(
            files[n - 1].path,
            files[n - 1].lines,
            files[n - 1].lines.len(),
        )
    }
}

/// Scans the candidate files for curly quotes. Reports nothing where the
/// rule is switched off or the run looks at upstream.
pub fn no_curly_quotes(run: &Run, files: &Vec<SourceFile>) -> (r: Vec<Diagnostic>)
    ensures
        views(r@) == (if !run.config.nocurlyquotes.enabled || run.is_upstream {
            Seq::empty()
        } else {
            files_quote_diagnostics(views(files@), files.len() as nat)
        }),
{
    let mut ret: Vec<Diagnostic> = Vec::new();
    if !run.config.nocurlyquotes.enabled || run.is_upstream() {
        assert(views(ret@) =~= Seq::<DiagnosticView>::empty());
        return ret;
    }
    let mut i: usize = 0;
    assert(views(ret@) =~= files_quote_diagnostics(views(files@), 0));
    while i < files.len()
        invariant
            i <= files.len(),
            views(ret@) == files_quote_diagnostics(views(files@), i as nat),
        decreases files.len() - i,
    {
        let file = &files[i];
        assert(views(files@)[i as int] == file@);
        let mut found = no_curly_quotes_impl(file.path.as_str(), &file.lines);
        proof {
            lemma_views_add(ret@, found@);
        }
        ret.append(&mut found);
        i += 1;
    }
    ret
}

} // verus!
