//! Blocks delimited by marker comments: "if the lines between the markers
//! change, the named target must change too".

use crate::diagnostic::{
    clone_diagnostics, lemma_views_add, lemma_views_push, views, Diagnostic, DiagnosticView,
    Position, Range, Severity,
};
use crate::git::{modified_lines, FileChanges, Hunk, HunkView};
use crate::paths::{path_key, path_key_of, same_path};
use crate::rules::markers::{
    closing_keyword, closing_keyword_chars, has_whitespace, is_closing_marker, is_opening_marker,
    marker_tail_start, match_marker, opening_keyword, opening_keyword_chars, trigger_bounds,
    trigger_text,
};
pub use crate::rules::remote_check::{
    clone_failed_diagnostic, clone_step, parse_last_commit, remote_diagnostics, remote_verdict,
    CloneAction, CloneEvent, Commit, HistoryError, RemoteOutcome, RemoteOutcomeView,
};
pub use crate::rules::remote_location::{remote_location_of, short_hash, CacheRoots, LocalDir};
use crate::run::Run;
use crate::text::{chars_of, concat3, concat4, concat5, find_whitespace, slice_chars, substring};
use vstd::hash_map::StringHashMap;
use vstd::prelude::*;
use vstd::string::*;

verus! {

/// A piece of text and where it stands in its file.
#[derive(Debug)]
pub struct TextBlock {
    pub location: Range,
    pub text: String,
}

/// Mathematical value of a [`TextBlock`].
pub struct TextBlockView {
    pub location: Range,
    pub text: Seq<char>,
}

impl View for TextBlock {
    type V = TextBlockView;

    open spec fn view(&self) -> TextBlockView {
        TextBlockView { location: self.location, text: self.text@ }
    }
}

impl Clone for TextBlock {
    fn clone(&self) -> (r: Self)
        ensures
            r@ == self@,
    {
        TextBlock { location: self.location, text: self.text.clone() }
    }
}

/// A reference to a file of another repository.
#[derive(Debug)]
pub struct RemoteLocation {
    pub repo: String,
    pub path: String,
    pub lock_hash: String,
    /// The trigger text and where it stands in its file
    pub block: TextBlock,
}

/// Mathematical value of a [`RemoteLocation`].
pub struct RemoteLocationView {
    pub repo: Seq<char>,
    pub path: Seq<char>,
    pub lock_hash: Seq<char>,
    pub block: TextBlockView,
}

impl View for RemoteLocation {
    type V = RemoteLocationView;

    open spec fn view(&self) -> RemoteLocationView {
        RemoteLocationView {
            repo: self.repo@,
            path: self.path@,
            lock_hash: self.lock_hash@,
            block: self.block@,
        }
    }
}

impl Clone for RemoteLocation {
    fn clone(&self) -> (r: Self)
        ensures
            r@ == self@,
    {
        RemoteLocation {
            repo: self.repo.clone(),
            path: self.path.clone(),
            lock_hash: self.lock_hash.clone(),
            block: self.block.clone(),
        }
    }
}

/// What must change when a block changes.
#[derive(Debug)]
pub enum ThenChange {
    RemoteFile(RemoteLocation),
    RepoFile(String),
    MissingIf,
    MissingThen,
}

/// Mathematical value of a [`ThenChange`].
pub enum ThenChangeView {
    RemoteFile(RemoteLocationView),
    RepoFile(Seq<char>),
    MissingIf,
    MissingThen,
}

impl View for ThenChange {
    type V = ThenChangeView;

    open spec fn view(&self) -> ThenChangeView {
        match self {
            ThenChange::RemoteFile(r) => ThenChangeView::RemoteFile(r@),
            ThenChange::RepoFile(p) => ThenChangeView::RepoFile(p@),
            ThenChange::MissingIf => ThenChangeView::MissingIf,
            ThenChange::MissingThen => ThenChangeView::MissingThen,
        }
    }
}

impl Clone for ThenChange {
    fn clone(&self) -> (r: Self)
        ensures
            r@ == self@,
    {
        match self {
            ThenChange::RemoteFile(l) => ThenChange::RemoteFile(l.clone()),
            ThenChange::RepoFile(p) => ThenChange::RepoFile(p.clone()),
            ThenChange::MissingIf => ThenChange::MissingIf,
            ThenChange::MissingThen => ThenChange::MissingThen,
        }
    }
}

/// What a block watches besides its own lines.
#[derive(Debug)]
pub enum IfChange {
    RemoteFile(RemoteLocation),
    RepoFile(String),
}

/// Mathematical value of an [`IfChange`].
pub enum IfChangeView {
    RemoteFile(RemoteLocationView),
    RepoFile(Seq<char>),
}

impl View for IfChange {
    type V = IfChangeView;

    open spec fn view(&self) -> IfChangeView {
        match self {
            IfChange::RemoteFile(r) => IfChangeView::RemoteFile(r@),
            IfChange::RepoFile(p) => IfChangeView::RepoFile(p@),
        }
    }
}

impl Clone for IfChange {
    fn clone(&self) -> (r: Self)
        ensures
            r@ == self@,
    {
        match self {
            IfChange::RemoteFile(l) => IfChange::RemoteFile(l.clone()),
            IfChange::RepoFile(p) => IfChange::RepoFile(p.clone()),
        }
    }
}

/// A block of one file: the lines from its opening marker up to its closing
/// marker, what it watches and what must change with it.
#[derive(Debug)]
pub struct IctcBlock {
    pub path: String,
    pub begin: Option<u64>,
    pub end: Option<u64>,
    pub ifchange: Option<IfChange>,
    pub thenchange: Option<ThenChange>,
}

/// Mathematical value of an [`IctcBlock`].
pub struct IctcBlockView {
    pub path: Seq<char>,
    pub begin: Option<u64>,
    pub end: Option<u64>,
    pub ifchange: Option<IfChangeView>,
    pub thenchange: Option<ThenChangeView>,
}

impl View for IctcBlock {
    type V = IctcBlockView;

    open spec fn view(&self) -> IctcBlockView {
        IctcBlockView {
            path: self.path@,
            begin: self.begin,
            end: self.end,
            ifchange: match self.ifchange {
                Some(c) => Some(c@),
                None => None,
            },
            thenchange: match self.thenchange {
                Some(c) => Some(c@),
                None => None,
            },
        }
    }
}

impl Clone for IctcBlock {
    fn clone(&self) -> (r: Self)
        ensures
            r@ == self@,
    {
        IctcBlock {
            path: self.path.clone(),
            begin: self.begin,
            end: self.end,
            ifchange: match &self.ifchange {
                Some(c) => Some(c.clone()),
                None => None,
            },
            thenchange: match &self.thenchange {
                Some(c) => Some(c.clone()),
                None => None,
            },
        }
    }
}

impl IctcBlockView {
    /// Whether the block says from which line to which it reaches.
    pub open spec fn has_range(self) -> bool {
        self.begin is Some && self.end is Some
    }

    /// The region that diagnostics of this block point at.
    pub open spec fn range(self) -> Range {
        Range {
            start: Position { line: self.begin->0, character: 0 },
            end: Position { line: self.end->0, character: 0 },
        }
    }

    /// Whether a marker of the block has no partner.
    pub open spec fn is_malformed(self) -> bool {
        self.thenchange == Some(ThenChangeView::MissingIf) || self.thenchange == Some(
            ThenChangeView::MissingThen,
        )
    }
}

impl IctcBlock {
    /// Tests whether the block is fit for diagnostics: it has a range, and
    /// the lock hash of a remote source fits its trigger text.
    pub fn is_well_formed(&self) -> (r: bool)
        ensures
            r == self@.wf(),
    {
        if self.begin.is_none() || self.end.is_none() {
            return false;
        }
        match &self.ifchange {
            Some(IfChange::RemoteFile(remote)) => {
                let len = remote.lock_hash.as_str().unicode_len();
                len as u64 <= remote.block.location.end.character
            },
            _ => true,
        }
    }

    /// The region that diagnostics of this block point at.
    pub fn get_range(&self) -> (r: Range)
        requires
            self@.has_range(),
        ensures
            r == self@.range(),
    {
        Range {
            start: Position { line: self.begin.unwrap(), character: 0 },
            end: Position { line: self.end.unwrap(), character: 0 },
        }
    }
}

/// The diagnostic of `block` with the given severity, code and message, and
/// without replacements.
pub open spec fn block_diagnostic_of(
    block: IctcBlockView,
    sev: Severity,
    code: Seq<char>,
    msg: Seq<char>,
) -> DiagnosticView {
    DiagnosticView {
        path: block.path,
        range: Some(block.range()),
        severity: sev,
        code,
        message: msg,
        replacements: None,
    }
}

/// Builds a diagnostic that points at `block`.
pub fn block_diagnostic(block: &IctcBlock, sev: Severity, code: &str, msg: &str) -> (r: Diagnostic)
    requires
        block@.has_range(),
    ensures
        r@ == block_diagnostic_of(block@, sev, code@, msg@),
{
    Diagnostic {
        path: block.path.clone(),
        range: Some(block.get_range()),
        severity: sev,
        code: code.to_owned(),
        message: msg.to_owned(),
        replacements: None,
    }
}

/// What the opening marker `line` of line `line_no` watches besides its own
/// block: nothing where the trigger text is empty, a file of another
/// repository where it holds whitespace, and else a local path.
pub open spec fn source_trigger_of(line: Seq<char>, line_no: u64) -> Option<IfChangeView> {
    let text = trigger_text(line, opening_keyword());
    if text.len() == 0 {
        None
    } else if has_whitespace(text) {
        Some(IfChangeView::RemoteFile(remote_location_of(line, line_no)))
    } else {
        Some(IfChangeView::RepoFile(text))
    }
}

/// State of a scan: the blocks emitted so far, and the block that an opening
/// marker has started and no marker has ended yet.
pub struct ScanState {
    pub blocks: Seq<IctcBlockView>,
    pub open: Option<IctcBlockView>,
}

/// The block that the opening marker `line` of line `line_no` starts.
pub open spec fn opened_block(path: Seq<char>, line_no: u64, line: Seq<char>) -> IctcBlockView {
    IctcBlockView {
        path,
        begin: Some(line_no),
        end: None,
        ifchange: source_trigger_of(line, line_no),
        thenchange: None,
    }
}

/// An open block that never met its closing marker, collapsed to the line
/// of its opening marker.
pub open spec fn unclosed_block(open: IctcBlockView) -> IctcBlockView {
    IctcBlockView {
        path: open.path,
        begin: open.begin,
        end: open.begin,
        ifchange: open.ifchange,
        thenchange: Some(ThenChangeView::MissingThen),
    }
}

/// An open block closed by the closing marker `line` of line `line_no`.
pub open spec fn closed_block(open: IctcBlockView, line_no: u64, line: Seq<char>) -> IctcBlockView {
    IctcBlockView {
        path: open.path,
        begin: open.begin,
        end: Some(line_no),
        ifchange: open.ifchange,
        thenchange: Some(ThenChangeView::RepoFile(trigger_text(line, closing_keyword()))),
    }
}

/// The block of a closing marker that no opening marker precedes, collapsed
/// to the line of that marker.
pub open spec fn orphan_block(path: Seq<char>, line_no: u64) -> IctcBlockView {
    IctcBlockView {
        path,
        begin: Some(line_no),
        end: Some(line_no),
        ifchange: None,
        thenchange: Some(ThenChangeView::MissingIf),
    }
}

/// One step of the scan, on line `line_no`.
///
/// An opening marker ends an open block as unclosed and starts a new one. A
/// closing marker closes the open block, or stands alone as a block of its
/// own. Any other line changes nothing.
pub open spec fn scan_step(path: Seq<char>, st: ScanState, line_no: u64, line: Seq<char>)
    -> ScanState {
    if is_opening_marker(line) {
        ScanState {
            blocks: if st.open is Some {
                st.blocks.push(unclosed_block(st.open->0))
            } else {
                st.blocks
            },
            open: Some(opened_block(path, line_no, line)),
        }
    } else if is_closing_marker(line) {
        ScanState {
            blocks: if st.open is Some {
                st.blocks.push(closed_block(st.open->0, line_no, line))
            } else {
                st.blocks.push(orphan_block(path, line_no))
            },
            open: None,
        }
    } else {
        st
    }
}

/// The state of the scan after the first `n` lines. Lines count from 1.
pub open spec fn scan_prefix(path: Seq<char>, lines: Seq<Seq<char>>, n: nat) -> ScanState
    decreases n,
{
    if n == 0 || n > lines.len() {
        ScanState { blocks: Seq::empty(), open: None }
    } else {
        scan_step(path, scan_prefix(path, lines, (n - 1) as nat), n as u64, lines[n - 1])
    }
}

/// The blocks of a file, in the order in which the scan emits them. A block
/// still open at the end of the file is emitted last, as unclosed.
pub open spec fn scan(path: Seq<char>, lines: Seq<Seq<char>>) -> Seq<IctcBlockView> {
    let st = scan_prefix(path, lines, lines.len());
    if st.open is Some {
        st.blocks.push(unclosed_block(st.open->0))
    } else {
        st.blocks
    }
}

/// What an opening marker watches besides its own block.
fn source_trigger(line: &str, chars: &Vec<char>, tail_start: usize, block: &IctcBlock) -> (r:
    Option<IfChange>)
    requires
        chars@ == line@,
        marker_tail_start(line@, opening_keyword()) == Some(tail_start as int),
        tail_start <= chars.len(),
        block.begin is Some,
    ensures
        (match r {
            Some(c) => Some(c@),
            None => None,
        }) == source_trigger_of(line@, block.begin->0),
        r matches Some(IfChange::RemoteFile(remote)) ==> remote@.wf(),
{
    let keyword = opening_keyword_chars();
    let bounds = trigger_bounds(chars, tail_start, &keyword);
    let start = bounds.0;
    let end = bounds.1;
    if start == end {
        return None;
    }
    let text = slice_chars(chars, start, end);
    if find_whitespace(&text, 0) < text.len() {
        Some(IfChange::RemoteFile(RemoteLocation::new(line, block)))
    } else {
        Some(IfChange::RepoFile(substring(line, start, end)))
    }
}

/// The views of the lines.
pub open spec fn line_views(lines: Seq<String>) -> Seq<Seq<char>> {
    lines.map_values(|l: String| l@)
}

/// The view of an optional block.
pub open spec fn view_of(block: Option<IctcBlock>) -> Option<IctcBlockView> {
    match block {
        Some(b) => Some(b@),
        None => None,
    }
}

/// Finds the blocks of the file `path` in its lines.
///
/// Markers without a partner never stop the scan: each becomes a block of
/// its own, marked as missing its opening or its closing marker.
pub fn find_ictc_blocks(path: &str, lines: &Vec<String>) -> (r: Vec<IctcBlock>)
    ensures
        views(r@) == scan(path@, line_views(lines@)),
        all_wf(views(r@)),
{
    let opening = opening_keyword_chars();
    let closing = closing_keyword_chars();
    let mut blocks: Vec<IctcBlock> = Vec::new();
    let mut block: Option<IctcBlock> = None;
    let ghost all = line_views(lines@);
    let ghost mut st = scan_prefix(path@, all, 0);
    let mut i: usize = 0;
    assert(views(blocks@) =~= st.blocks);
    while i < lines.len()
        invariant
            i <= lines.len(),
            all == line_views(lines@),
            opening@ == opening_keyword(),
            closing@ == closing_keyword(),
            st == scan_prefix(path@, all, i as nat),
            views(blocks@) == st.blocks,
            view_of(block) == st.open,
            block is Some ==> block->0.begin is Some,
            block is Some ==> (block->0.ifchange matches Some(IfChange::RemoteFile(remote))
                ==> remote@.wf()),
            all_wf(views(blocks@)),
        decreases lines.len() - i,
    {
        let line = lines[i].as_str();
        let chars = chars_of(line);
        let line_no: u64 = (i + 1) as u64;
        assert(all[i as int] == line@);
        let ghost next = scan_step(path@, st, line_no, line@);
        if let Some(tail_start) = match_marker(&chars, &opening) {
            if let Some(previous) = block {
                let unclosed = IctcBlock {
                    path: previous.path,
                    begin: previous.begin,
                    end: previous.begin,
                    ifchange: previous.ifchange,
                    thenchange: Some(ThenChange::MissingThen),
                };
                proof {
                    lemma_views_push(blocks@, unclosed);
                }
                blocks.push(unclosed);
            }
            let mut ib = IctcBlock {
                path: path.to_owned(),
                begin: Some(line_no),
                end: None,
                ifchange: None,
                thenchange: None,
            };
            ib.ifchange = source_trigger(line, &chars, tail_start, &ib);
            block = Some(ib);
        } else if let Some(tail_start) = match_marker(&chars, &closing) {
            if let Some(previous) = block {
                let bounds = trigger_bounds(&chars, tail_start, &closing);
                let closed = IctcBlock {
                    path: previous.path,
                    begin: previous.begin,
                    end: Some(line_no),
                    ifchange: previous.ifchange,
                    thenchange: Some(ThenChange::RepoFile(substring(line, bounds.0, bounds.1))),
                };
                proof {
                    lemma_views_push(blocks@, closed);
                }
                blocks.push(closed);
                block = None;
            } else {
                let orphan = IctcBlock {
                    path: path.to_owned(),
                    begin: Some(line_no),
                    end: Some(line_no),
                    ifchange: None,
                    thenchange: Some(ThenChange::MissingIf),
                };
                proof {
                    lemma_views_push(blocks@, orphan);
                }
                blocks.push(orphan);
            }
        }
        proof {
            st = next;
        }
        i += 1;
    }
    if let Some(previous) = block {
        let unclosed = IctcBlock {
            path: previous.path,
            begin: previous.begin,
            end: previous.begin,
            ifchange: previous.ifchange,
            thenchange: Some(ThenChange::MissingThen),
        };
        proof {
            lemma_views_push(blocks@, unclosed);
        }
        blocks.push(unclosed);
    }
    blocks
}

impl IctcBlockView {
    /// The lines of the block: from its first line up to, and without, the
    /// line of its closing marker.
    pub open spec fn lines(self) -> Set<int> {
        if self.has_range() {
            Set::new(|l: int| self.begin->0 <= l < self.end->0)
        } else {
            Set::empty()
        }
    }

    /// Whether the block needs attention: a marker of it has no partner, or
    /// one of its lines is among the modified lines of its file.
    pub open spec fn is_triggered(self, hunks: Seq<HunkView>) -> bool {
        self.thenchange is Some && (self.is_malformed() || !self.lines().disjoint(
            modified_lines(hunks, self.path),
        ))
    }

    /// Whether `hunk` is of the file of the block and shares a line with it.
    pub open spec fn is_touched_by(self, hunk: HunkView) -> bool {
        &&& self.has_range()
        &&& same_path(hunk.path, self.path)
        &&& self.begin->0 < hunk.end
        &&& hunk.begin < self.end->0
        &&& self.begin->0 < self.end->0
        &&& hunk.begin < hunk.end
    }

    /// What diagnostics of the block need: its range, and a lock hash that
    /// fits its trigger text.
    pub open spec fn wf(self) -> bool {
        &&& self.has_range()
        &&& self.ifchange matches Some(IfChangeView::RemoteFile(remote)) ==> remote.wf()
    }
}

/// A block shares a line with the modified lines of its file exactly when
/// one of the hunks touches it.
pub proof fn lemma_touched_by_some_hunk(block: IctcBlockView, hunks: Seq<HunkView>)
    ensures
        !block.lines().disjoint(modified_lines(hunks, block.path)) <==> exists|k: int|
            0 <= k < hunks.len() && block.is_touched_by(#[trigger] hunks[k]),
{
    let modified = modified_lines(hunks, block.path);
    if !block.lines().disjoint(modified) {
        let l = choose|l: int| block.lines().contains(l) && modified.contains(l);
        let k = choose|k: int|
            0 <= k < hunks.len() && same_path((#[trigger] hunks[k]).path, block.path)
                && hunks[k].begin <= l < hunks[k].end;
        assert(block.is_touched_by(hunks[k]));
    }
    if exists|k: int| 0 <= k < hunks.len() && block.is_touched_by(#[trigger] hunks[k]) {
        let k = choose|k: int| 0 <= k < hunks.len() && block.is_touched_by(#[trigger] hunks[k]);
        let h = hunks[k];
        let l: int = if block.begin->0 >= h.begin {
            block.begin->0 as int
        } else {
            h.begin as int
        };
        assert(block.lines().contains(l));
        assert(modified.contains(l));
    }
}

/// Decides whether `block` needs attention, given the hunks of the working
/// copy.
pub fn is_triggered(block: &IctcBlock, hunks: &Vec<Hunk>) -> (r: bool)
    ensures
        r == block@.is_triggered(views(hunks@)),
{
    proof {
        lemma_touched_by_some_hunk(block@, views(hunks@));
    }
    match &block.thenchange {
        None => false,
        Some(ThenChange::MissingIf) | Some(ThenChange::MissingThen) => true,
        Some(_) => {
            let (begin, end) = match (block.begin, block.end) {
                (Some(b), Some(e)) => (b, e),
                _ => {
                    return false;
                },
            };
            let key = path_key(block.path.as_str());
            let mut i: usize = 0;
            while i < hunks.len()
                invariant
                    i <= hunks.len(),
                    key@ == path_key_of(block.path@),
                    block.begin == Some(begin),
                    block.end == Some(end),
                    block.thenchange is Some,
                    forall|k: int| 0 <= k < i ==> !block@.is_touched_by(#[trigger] views(hunks@)[k]),
                decreases hunks.len() - i,
            {
                let h = &hunks[i];
                assert(views(hunks@)[i as int] == h@);
                if begin < h.end && h.begin < end && begin < end && h.begin < h.end && path_key(
                    h.path.as_str(),
                ) == key {
                    proof {
                        lemma_touched_by_some_hunk(block@, views(hunks@));
                    }
                    return true;
                }
                i += 1;
            }
            false
        },
    }
}

/// The blocks that need attention, in their order.
pub open spec fn triggered(all: Seq<IctcBlockView>, hunks: Seq<HunkView>) -> Seq<IctcBlockView> {
    all.filter(|b: IctcBlockView| b.is_triggered(hunks))
}

/// The paths of the files that hold one of the blocks, in normal form.
pub open spec fn block_paths(blocks: Seq<IctcBlockView>) -> Set<Seq<char>> {
    Set::new(
        |p: Seq<char>|
            exists|k: int| 0 <= k < blocks.len() && path_key_of((#[trigger] blocks[k]).path) == p,
    )
}

/// Picks the blocks that need attention.
pub fn triggered_blocks(all_blocks: &Vec<IctcBlock>, modified: &FileChanges) -> (r: Vec<IctcBlock>)
    ensures
        views(r@) == triggered(views(all_blocks@), views(modified.hunks@)),
{
    let mut blocks: Vec<IctcBlock> = Vec::new();
    let ghost all = views(all_blocks@);
    let ghost p = |b: IctcBlockView| b.is_triggered(views(modified.hunks@));
    let mut i: usize = 0;
    assert(all.take(0).filter(p) =~= Seq::<IctcBlockView>::empty()) by {
        reveal(Seq::filter);
    }
    assert(views(blocks@) =~= all.take(0).filter(p));
    while i < all_blocks.len()
        invariant
            i <= all_blocks.len(),
            all == views(all_blocks@),
            p == |b: IctcBlockView| b.is_triggered(views(modified.hunks@)),
            views(blocks@) == all.take(i as int).filter(p),
        decreases all_blocks.len() - i,
    {
        let block = &all_blocks[i];
        proof {
            assert(all[i as int] == block@);
            assert(all.take(i + 1).drop_last() =~= all.take(i as int));
            assert(all.take(i + 1).last() == block@);
            reveal(Seq::filter);
        }
        if is_triggered(block, &modified.hunks) {
            let copy = block.clone();
            proof {
                lemma_views_push(blocks@, copy);
            }
            blocks.push(copy);
        }
        i += 1;
    }
    assert(all.take(all_blocks.len() as int) =~= all);
    blocks
}

/// Indexes blocks by the path of their file, in normal form: each path
/// leads to the last of the blocks of that file.
pub fn index_by_path(blocks: &Vec<IctcBlock>) -> (r: StringHashMap<usize>)
    ensures
        r@.dom() == block_paths(views(blocks@)),
        forall|p: Seq<char>| #[trigger]
            r@.contains_key(p) ==> r@[p] < blocks.len() && path_key_of(
                blocks@[r@[p] as int].path@,
            ) == p,
        forall|k: int|
            0 <= k < blocks.len() ==> k <= r@[path_key_of((#[trigger] blocks@[k]).path@)],
{
    let mut index: StringHashMap<usize> = StringHashMap::new();
    let mut i: usize = 0;
    assert(index@.dom() =~= block_paths(views(blocks@).take(0)));
    while i < blocks.len()
        invariant
            i <= blocks.len(),
            index@.dom() == block_paths(views(blocks@).take(i as int)),
            forall|p: Seq<char>| #[trigger]
                index@.contains_key(p) ==> index@[p] < blocks.len() && path_key_of(
                    blocks@[index@[p] as int].path@,
                ) == p,
            forall|k: int| 0 <= k < i ==> k <= index@[path_key_of((#[trigger] blocks@[k]).path@)],
        decreases blocks.len() - i,
    {
        let ghost before = views(blocks@).take(i as int);
        let ghost after = views(blocks@).take(i + 1);
        index.insert(path_key(blocks[i].path.as_str()), i);
        proof {
            let key = path_key_of(blocks@[i as int].path@);
            assert(after[i as int].path == blocks@[i as int].path@);
            assert forall|p: Seq<char>| block_paths(after).contains(p) <==> (block_paths(
                before,
            ).contains(p) || p == key) by {
                if block_paths(after).contains(p) {
                    let k = choose|k: int|
                        0 <= k < after.len() && path_key_of((#[trigger] after[k]).path) == p;
                    if k < i {
                        assert(path_key_of(before[k].path) == p);
                    }
                }
                if block_paths(before).contains(p) {
                    let k = choose|k: int|
                        0 <= k < before.len() && path_key_of((#[trigger] before[k]).path) == p;
                    assert(path_key_of(after[k].path) == p);
                }
                if p == key {
                    assert(path_key_of(after[i as int].path) == p);
                }
            }
            assert(index@.dom() =~= block_paths(after));
        }
        i += 1;
    }
    assert(views(blocks@).take(blocks.len() as int) =~= views(blocks@));
    index
}

/// Why an analysis could not be finished.
#[derive(Clone, Copy, Debug, PartialEq, Eq, Structural)]
pub enum IctcError {
    /// The target of a block is a file of another repository, which is not
    /// supported
    RemoteTargetUnsupported,
    /// A block with a remote source came without the outcome of resolving it
    MissingRemoteOutcome,
    /// There is not one probe for each block that needs attention
    ProbeMismatch,
}

/// The check of the target of a block.
///
/// A local target that does not exist is an error, and so is a local target
/// in whose file no block needs attention; the file of a block is the
/// target where their paths have the same components. A marker without a partner is a
/// warning. A target in another repository is not supported.
pub open spec fn target_verdict(
    block: IctcBlockView,
    triggered_paths: Set<Seq<char>>,
    target_exists: bool,
) -> Result<Seq<DiagnosticView>, IctcError> {
    match block.thenchange {
        None => Ok(Seq::empty()),
        Some(ThenChangeView::RemoteFile(_)) => Err(IctcError::RemoteTargetUnsupported),
        Some(ThenChangeView::RepoFile(target)) => Ok(
            (if target_exists {
                Seq::empty()
            } else {
                seq![
                    block_diagnostic_of(
                        block,
                        Severity::Error,
                        "if-change-file-does-not-exist"@,
                        "ThenChange "@ + target + " does not exist"@,
                    ),
                ]
            }) + (if triggered_paths.contains(path_key_of(target)) {
                Seq::empty()
            } else {
                seq![
                    block_diagnostic_of(
                        block,
                        Severity::Error,
                        "if-change-then-change-this"@,
                        "Expected change in "@ + target + " because "@ + block.path
                            + " was modified"@,
                    ),
                ]
            }),
        ),
        Some(ThenChangeView::MissingIf) => Ok(
            seq![
                block_diagnostic_of(
                    block,
                    Severity::Warning,
                    "if-change-mismatched"@,
                    "Expected preceding IfChange tag"@,
                ),
            ],
        ),
        Some(ThenChangeView::MissingThen) => Ok(
            seq![
                block_diagnostic_of(
                    block,
                    Severity::Warning,
                    "if-change-mismatched"@,
                    "Expected matching ThenChange tag"@,
                ),
            ],
        ),
    }
}

/// Checks the target of a block, given the index of the blocks that need
/// attention and whether a local target exists.
pub fn target_diagnostics(
    block: &IctcBlock,
    blocks_by_path: &StringHashMap<usize>,
    target_exists: bool,
) -> (r: Result<Vec<Diagnostic>, IctcError>)
    requires
        block@.has_range(),
    ensures
        match r {
            Ok(d) => target_verdict(block@, blocks_by_path@.dom(), target_exists) == Ok::<
                Seq<DiagnosticView>,
                IctcError,
            >(views(d@)),
            Err(e) => target_verdict(block@, blocks_by_path@.dom(), target_exists) == Err::<
                Seq<DiagnosticView>,
                IctcError,
            >(e),
        },
{
    let mut out: Vec<Diagnostic> = Vec::new();
    let ghost verdict = target_verdict(block@, blocks_by_path@.dom(), target_exists);
    match &block.thenchange {
        None => {
            assert(views(out@) =~= verdict->Ok_0);
            Ok(out)
        },
        Some(ThenChange::RemoteFile(_)) => Err(IctcError::RemoteTargetUnsupported),
        Some(ThenChange::RepoFile(target)) => {
            if !target_exists {
                let message = concat3("ThenChange ", target.as_str(), " does not exist");
                out.push(
                    block_diagnostic(
                        block,
                        Severity::Error,
                        "if-change-file-does-not-exist",
                        message.as_str(),
                    ),
                );
            }
            if !blocks_by_path.contains_key(path_key(target.as_str()).as_str()) {
                let message = concat5(
                    "Expected change in ",
                    target.as_str(),
                    " because ",
                    block.path.as_str(),
                    " was modified",
                );
                out.push(
                    block_diagnostic(
                        block,
                        Severity::Error,
                        "if-change-then-change-this",
                        message.as_str(),
                    ),
                );
            }
            assert(views(out@) =~= verdict->Ok_0);
            Ok(out)
        },
        Some(ThenChange::MissingIf) => {
            out.push(
                block_diagnostic(
                    block,
                    Severity::Warning,
                    "if-change-mismatched",
                    "Expected preceding IfChange tag",
                ),
            );
            assert(views(out@) =~= verdict->Ok_0);
            Ok(out)
        },
        Some(ThenChange::MissingThen) => {
            out.push(
                block_diagnostic(
                    block,
                    Severity::Warning,
                    "if-change-mismatched",
                    "Expected matching ThenChange tag",
                ),
            );
            assert(views(out@) =~= verdict->Ok_0);
            Ok(out)
        },
    }
}

/// What was found out about one block that needs attention.
#[derive(Debug)]
pub struct BlockProbe {
    /// How resolving the block's remote source ended, where it has one
    pub remote: Option<RemoteOutcome>,
    /// Whether the block's local target exists
    pub target_exists: bool,
}

/// Mathematical value of a [`BlockProbe`].
pub struct BlockProbeView {
    pub remote: Option<RemoteOutcomeView>,
    pub target_exists: bool,
}

impl View for BlockProbe {
    type V = BlockProbeView;

    open spec fn view(&self) -> BlockProbeView {
        BlockProbeView {
            remote: match self.remote {
                Some(o) => Some(o@),
                None => None,
            },
            target_exists: self.target_exists,
        }
    }
}

/// The diagnostics of one block that needs attention. A remote source is
/// checked first and decides whether the target is checked; any other block
/// has its target checked.
pub open spec fn block_verdict(
    block: IctcBlockView,
    probe: BlockProbeView,
    triggered_paths: Set<Seq<char>>,
) -> Result<Seq<DiagnosticView>, IctcError> {
    match block.ifchange {
        Some(IfChangeView::RemoteFile(remote)) => match probe.remote {
            None => Err(IctcError::MissingRemoteOutcome),
            Some(outcome) => {
                let verdict = remote_verdict(remote, block, outcome);
                if verdict.check_target {
                    match target_verdict(block, triggered_paths, probe.target_exists) {
                        Ok(d) => Ok(verdict.diagnostics + d),
                        Err(e) => Err(e),
                    }
                } else {
                    Ok(verdict.diagnostics)
                }
            },
        },
        _ => target_verdict(block, triggered_paths, probe.target_exists),
    }
}

/// The diagnostics of the first `n` blocks, or the first error among them.
pub open spec fn verdicts_until(
    blocks: Seq<IctcBlockView>,
    probes: Seq<BlockProbeView>,
    triggered_paths: Set<Seq<char>>,
    n: nat,
) -> Result<Seq<DiagnosticView>, IctcError>
    decreases n,
{
    if n == 0 || n > blocks.len() || n > probes.len() {
        Ok(Seq::empty())
    } else {
        match verdicts_until(blocks, probes, triggered_paths, (n - 1) as nat) {
            Err(e) => Err(e),
            Ok(before) => match block_verdict(blocks[n - 1], probes[n - 1], triggered_paths) {
                Err(e) => Err(e),
                Ok(d) => Ok(before + d),
            },
        }
    }
}

/// Whether an analysis ends before it looks at anything: the rule is
/// switched off, the run looks at upstream, or no file holds a block.
pub open spec fn is_skipped(enabled: bool, upstream: bool, all: Seq<IctcBlockView>) -> bool {
    !enabled || upstream || all.len() == 0
}

/// The diagnostics that a whole analysis finds.
///
/// An analysis that is skipped finds nothing. Else the blocks that need
/// attention are checked in their order, each with its probe.
pub open spec fn analysis(
    enabled: bool,
    upstream: bool,
    all: Seq<IctcBlockView>,
    hunks: Seq<HunkView>,
    probes: Seq<BlockProbeView>,
) -> Result<Seq<DiagnosticView>, IctcError> {
    if is_skipped(enabled, upstream, all) {
        Ok(Seq::empty())
    } else if probes.len() != triggered(all, hunks).len() {
        Err(IctcError::ProbeMismatch)
    } else {
        let blocks = triggered(all, hunks);
        verdicts_until(blocks, probes, block_paths(blocks), blocks.len())
    }
}

/// Every block is fit for diagnostics.
pub open spec fn all_wf(blocks: Seq<IctcBlockView>) -> bool {
    forall|k: int| 0 <= k < blocks.len() ==> (#[trigger] blocks[k]).wf()
}

/// Checks one block that needs attention.
pub fn check_block(block: &IctcBlock, probe: &BlockProbe, blocks_by_path: &StringHashMap<usize>) -> (r:
    Result<Vec<Diagnostic>, IctcError>)
    requires
        block@.wf(),
    ensures
        match r {
            Ok(d) => block_verdict(block@, probe@, blocks_by_path@.dom()) == Ok::<
                Seq<DiagnosticView>,
                IctcError,
            >(views(d@)),
            Err(e) => block_verdict(block@, probe@, blocks_by_path@.dom()) == Err::<
                Seq<DiagnosticView>,
                IctcError,
            >(e),
        },
{
    match &block.ifchange {
        Some(IfChange::RemoteFile(remote)) => match &probe.remote {
            None => Err(IctcError::MissingRemoteOutcome),
            Some(outcome) => {
                let checked = remote_diagnostics(remote, block, outcome);
                let mut out = checked.0;
                if checked.1 {
                    match target_diagnostics(block, blocks_by_path, probe.target_exists) {
                        Ok(more) => {
                            let mut more = more;
                            proof {
                                lemma_views_add(out@, more@);
                            }
                            out.append(&mut more);
                            Ok(out)
                        },
                        Err(e) => Err(e),
                    }
                } else {
                    Ok(out)
                }
            },
        },
        _ => target_diagnostics(block, blocks_by_path, probe.target_exists),
    }
}

/// The analysis of one run.
pub struct Ictc<'a> {
    pub run: &'a Run,
    pub upstream: String,
    pub diagnostics: Vec<Diagnostic>,
}

impl<'a> Ictc<'a> {
    /// An analysis of `run` against `upstream` that has reported nothing yet.
    pub fn new(run: &'a Run, upstream: &str) -> (r: Self)
        ensures
            r.run == run,
            r.upstream@ == upstream@,
            r.diagnostics@.len() == 0,
    {
        Self { run, upstream: upstream.to_owned(), diagnostics: Vec::new() }
    }

    /// Whether the analysis has any use for the changes of the working copy:
    /// the rule is switched on, the run does not look at upstream, and some
    /// file holds a block.
    pub fn wants_changes(&self, all_blocks: &Vec<IctcBlock>) -> (r: bool)
        ensures
            r == (self.run.config.ifchange.enabled && !self.run.is_upstream && all_blocks.len() > 0),
    {
        self.run.config.ifchange.enabled && !self.run.is_upstream() && all_blocks.len() > 0
    }

    /// The next step towards a clone of `remote` in the directory
    /// `repo_path`, after `event`.
    pub fn build_or_get_remote_repo(
        &self,
        remote: &RemoteLocation,
        block: &IctcBlock,
        repo_path: &str,
        event: &CloneEvent,
    ) -> (r: CloneAction)
        requires
            block@.has_range(),
        ensures
            r@ == clone_step(remote@, block@, repo_path@, event@),
    {
        match event {
            CloneEvent::Started => CloneAction::ProbeDirectory,
            CloneEvent::Probed { exists, is_repository } => {
                if !*exists {
                    CloneAction::RunClone
                } else if *is_repository {
                    CloneAction::Ready(repo_path.to_owned())
                } else {
                    CloneAction::RemoveDirectory
                }
            },
            CloneEvent::Removed => CloneAction::RunClone,
            CloneEvent::CloneFinished { success, stderr } => {
                if *success {
                    CloneAction::Ready(repo_path.to_owned())
                } else {
                    let message = concat4(
                        "Failed to clone remote repo at ",
                        remote.repo.as_str(),
                        ": ",
                        stderr.as_str(),
                    );
                    CloneAction::Failed(
                        block_diagnostic(
                            block,
                            Severity::Warning,
                            "if-change-clone-failed",
                            message.as_str(),
                        ),
                    )
                }
            },
        }
    }

    /// Checks the remote source of `block`, given how resolving it ended,
    /// and records what it finds. Says whether the target of the block is
    /// still to be checked.
    pub fn ifchange_remote(
        &mut self,
        remote: &RemoteLocation,
        block: &IctcBlock,
        outcome: &RemoteOutcome,
    ) -> (r: bool)
        requires
            block@.has_range(),
            remote@.wf(),
        ensures
            views(final(self).diagnostics@) == views(old(self).diagnostics@) + remote_verdict(
                remote@,
                block@,
                outcome@,
            ).diagnostics,
            r == remote_verdict(remote@, block@, outcome@).check_target,
            final(self).run == old(self).run,
            final(self).upstream == old(self).upstream,
    {
        let checked = remote_diagnostics(remote, block, outcome);
        let mut found = checked.0;
        proof {
            lemma_views_add(self.diagnostics@, found@);
        }
        self.diagnostics.append(&mut found);
        checked.1
    }

    /// Checks the target of `block` and records what it finds. Records
    /// nothing where the target is not supported.
    pub fn thenchange(
        &mut self,
        block: &IctcBlock,
        blocks_by_path: &StringHashMap<usize>,
        target_exists: bool,
    ) -> (r: Result<(), IctcError>)
        requires
            block@.has_range(),
        ensures
            match target_verdict(block@, blocks_by_path@.dom(), target_exists) {
                Ok(d) => r is Ok && views(final(self).diagnostics@) == views(old(self).diagnostics@)
                    + d,
                Err(e) => r == Err::<(), IctcError>(e) && views(final(self).diagnostics@) == views(
                    old(self).diagnostics@,
                ),
            },
            final(self).run == old(self).run,
            final(self).upstream == old(self).upstream,
    {
        match target_diagnostics(block, blocks_by_path, target_exists) {
            Ok(found) => {
                let mut found = found;
                proof {
                    lemma_views_add(self.diagnostics@, found@);
                }
                self.diagnostics.append(&mut found);
                Ok(())
            },
            Err(e) => Err(e),
        }
    }

    /// Runs the analysis on the blocks of all candidate files, given the
    /// changes of the working copy and one probe for each block that needs
    /// attention, in the order of [`triggered_blocks`].
    ///
    /// An analysis that is skipped hands back an empty list and records
    /// nothing. Else, on success, the diagnostics found are recorded and all
    /// recorded diagnostics are handed back; on an error nothing is recorded.
    /// Where
    /// the analysis is not switched off, the blocks that need attention must
    /// be fit for diagnostics, as the blocks of a scan are.
    #[verifier::loop_isolation(false)]
    pub fn run(&mut self, all_blocks: &Vec<IctcBlock>, modified: &FileChanges, probes: &Vec<BlockProbe>)
        -> (r: Result<Vec<Diagnostic>, IctcError>)
        requires
            old(self).run.config.ifchange.enabled && !old(self).run.is_upstream ==> all_wf(
                triggered(views(all_blocks@), views(modified.hunks@)),
            ),
        ensures
            match analysis(
                old(self).run.config.ifchange.enabled,
                old(self).run.is_upstream,
                views(all_blocks@),
                views(modified.hunks@),
                views(probes@),
            ) {
                Ok(d) => r is Ok && views(final(self).diagnostics@) == views(
                    old(self).diagnostics@,
                ) + d && views(r->Ok_0@) == (if is_skipped(
                    old(self).run.config.ifchange.enabled,
                    old(self).run.is_upstream,
                    views(all_blocks@),
                ) {
                    Seq::empty()
                } else {
                    views(old(self).diagnostics@) + d
                }),
                Err(e) => r == Err::<Vec<Diagnostic>, IctcError>(e) && views(
                    final(self).diagnostics@,
                ) == views(old(self).diagnostics@),
            },
            final(self).run == old(self).run,
            final(self).upstream == old(self).upstream,
    {
        if !self.wants_changes(all_blocks) {
            assert(views(self.diagnostics@) + Seq::<DiagnosticView>::empty() =~= views(
                self.diagnostics@,
            ));
            assert(views(all_blocks@).len() == all_blocks.len());
            let nothing: Vec<Diagnostic> = Vec::new();
            assert(views(nothing@) =~= Seq::<DiagnosticView>::empty());
            return Ok(nothing);
        }
        assert(views(all_blocks@).len() == all_blocks.len());
        let blocks = triggered_blocks(all_blocks, modified);
        assert(views(probes@).len() == probes.len());
        assert(views(blocks@).len() == blocks.len());
        if probes.len() != blocks.len() {
            return Err(IctcError::ProbeMismatch);
        }
        let blocks_by_path = index_by_path(&blocks);
        let ghost paths = block_paths(views(blocks@));
        let mut found: Vec<Diagnostic> = Vec::new();
        let mut i: usize = 0;
        assert(views(found@) =~= Seq::<DiagnosticView>::empty());
        while i < blocks.len()
            invariant
                i <= blocks.len(),
                probes.len() == blocks.len(),
                blocks_by_path@.dom() == paths,
                all_wf(views(blocks@)),
                verdicts_until(views(blocks@), views(probes@), paths, i as nat) == Ok::<
                    Seq<DiagnosticView>,
                    IctcError,
                >(views(found@)),
            decreases blocks.len() - i,
        {
            assert(views(blocks@)[i as int] == blocks@[i as int]@);
            assert(views(probes@)[i as int] == probes@[i as int]@);
            match check_block(&blocks[i], &probes[i], &blocks_by_path) {
                Ok(more) => {
                    let mut more = more;
                    proof {
                        lemma_views_add(found@, more@);
                    }
                    found.append(&mut more);
                },
                Err(e) => {
                    proof {
                        lemma_first_error_stays(
                            views(blocks@),
                            views(probes@),
                            paths,
                            (i + 1) as nat,
                            blocks.len() as nat,
                        );
                    }
                    return Err(e);
                },
            }
            i += 1;
        }
        proof {
            lemma_views_add(self.diagnostics@, found@);
        }
        self.diagnostics.append(&mut found);
        Ok(clone_diagnostics(&self.diagnostics))
    }
}

/// Once a block has failed, the analysis has failed, with that error.
proof fn lemma_first_error_stays(
    blocks: Seq<IctcBlockView>,
    probes: Seq<BlockProbeView>,
    paths: Set<Seq<char>>,
    m: nat,
    n: nat,
)
    requires
        m <= n <= blocks.len(),
        n <= probes.len(),
        verdicts_until(blocks, probes, paths, m) is Err,
    ensures
        verdicts_until(blocks, probes, paths, n) == verdicts_until(blocks, probes, paths, m),
    decreases n - m,
{
    if m < n {
        lemma_first_error_stays(blocks, probes, paths, m, (n - 1) as nat);
    }
}

/// Blocks picked from blocks that are fit for diagnostics are fit too, so
/// the blocks of a scan can be handed to [`Ictc::run`] as they are.
pub proof fn lemma_triggered_wf(all: Seq<IctcBlockView>, hunks: Seq<HunkView>)
    requires
        all_wf(all),
    ensures
        all_wf(triggered(all, hunks)),
{
    let p = |b: IctcBlockView| b.is_triggered(hunks);
    assert forall|k: int| 0 <= k < triggered(all, hunks).len() implies (#[trigger] triggered(
        all,
        hunks,
    )[k]).wf() by {
        let b = triggered(all, hunks)[k];
        assert(all.filter(p).contains(b));
        all.lemma_filter_contains_rev(p, b);
    }
}

/// A block needs attention exactly when its lines were modified. For a
/// block with a target whose markers both have their partner, the block is
/// among those that need attention if and only if one of its lines, from
/// its first line up to and without the line of its closing marker, is among
/// the modified lines of its file.
pub proof fn lemma_attention_iff_lines_modified(
    all: Seq<IctcBlockView>,
    hunks: Seq<HunkView>,
    k: int,
)
    requires
        0 <= k < all.len(),
        all[k].thenchange is Some,
        !all[k].is_malformed(),
    ensures
        all[k].is_triggered(hunks) <==> exists|l: int|
            all[k].lines().contains(l) && modified_lines(hunks, all[k].path).contains(l),
        triggered(all, hunks).contains(all[k]) <==> all[k].is_triggered(hunks),
{
    let p = |b: IctcBlockView| b.is_triggered(hunks);
    let block = all[k];
    if triggered(all, hunks).contains(block) {
        let i = choose|i: int| 0 <= i < all.filter(p).len() && all.filter(p)[i] == block;
        all.lemma_filter_pred(p, i);
    }
    if block.is_triggered(hunks) {
        all.lemma_filter_contains(p, k);
    }
    let modified = modified_lines(hunks, block.path);
    if exists|l: int| block.lines().contains(l) && modified.contains(l) {
        assert(!block.lines().disjoint(modified));
    }
}

/// A block whose marker has no partner always needs attention, whatever was
/// modified.
pub proof fn lemma_malformed_blocks_need_attention(block: IctcBlockView, hunks: Seq<HunkView>)
    requires
        block.is_malformed(),
    ensures
        block.is_triggered(hunks),
{
}

/// The diagnostic for a local target that does not exist.
pub open spec fn missing_target_diagnostic(block: IctcBlockView, target: Seq<char>)
    -> DiagnosticView {
    block_diagnostic_of(
        block,
        Severity::Error,
        "if-change-file-does-not-exist"@,
        "ThenChange "@ + target + " does not exist"@,
    )
}

/// A local target that does not exist is always reported. Whether or not a
/// block of the target's file needs attention, the check of a block whose
/// local target does not exist succeeds and its first diagnostic says that
/// the target does not exist.
pub proof fn lemma_missing_target_is_reported(
    block: IctcBlockView,
    target: Seq<char>,
    triggered_paths: Set<Seq<char>>,
)
    requires
        block.thenchange == Some(ThenChangeView::RepoFile(target)),
    ensures
        target_verdict(block, triggered_paths, false) is Ok,
        target_verdict(block, triggered_paths, false)->Ok_0.len() >= 1,
        target_verdict(block, triggered_paths, false)->Ok_0[0] == missing_target_diagnostic(
            block,
            target,
        ),
        target_verdict(block, triggered_paths, false)->Ok_0.len() == (if triggered_paths.contains(
            path_key_of(target),
        ) {
            1nat
        } else {
            2nat
        }),
{
}

/// Whether the diagnostic points at the block: it names the block's file
/// and has the block's range.
pub open spec fn is_about(diagnostic: DiagnosticView, block: IctcBlockView) -> bool {
    diagnostic.path == block.path && diagnostic.range == Some(block.range())
}

/// The diagnostic for a target in whose file no block needs attention.
pub open spec fn expected_change_diagnostic(block: IctcBlockView, target: Seq<char>)
    -> DiagnosticView {
    block_diagnostic_of(
        block,
        Severity::Error,
        "if-change-then-change-this"@,
        "Expected change in "@ + target + " because "@ + block.path + " was modified"@,
    )
}

/// Each diagnostic of a block points at the block, or is the diagnostic that
/// a failed clone came with.
proof fn lemma_block_verdict_is_about(
    block: IctcBlockView,
    probe: BlockProbeView,
    paths: Set<Seq<char>>,
    i: int,
)
    requires
        block_verdict(block, probe, paths) is Ok,
        0 <= i < block_verdict(block, probe, paths)->Ok_0.len(),
    ensures
        is_about(block_verdict(block, probe, paths)->Ok_0[i], block) || probe.remote == Some(
            RemoteOutcomeView::CloneFailed(block_verdict(block, probe, paths)->Ok_0[i]),
        ),
{
}

/// Whether one of the first `n` blocks gives the diagnostic.
spec fn is_given(
    blocks: Seq<IctcBlockView>,
    probes: Seq<BlockProbeView>,
    paths: Set<Seq<char>>,
    n: nat,
    x: DiagnosticView,
) -> bool {
    exists|m: int|
        0 <= m < n && (#[trigger] block_verdict(blocks[m], probes[m], paths))->Ok_0.contains(x)
}

/// What the first `n` blocks give holds what each of them gives, and
/// nothing else.
proof fn lemma_verdicts_collect(
    blocks: Seq<IctcBlockView>,
    probes: Seq<BlockProbeView>,
    paths: Set<Seq<char>>,
    n: nat,
)
    requires
        n <= blocks.len(),
        n <= probes.len(),
        verdicts_until(blocks, probes, paths, n) is Ok,
    ensures
        forall|m: int|
            0 <= m < n ==> (#[trigger] block_verdict(blocks[m], probes[m], paths)) is Ok,
        forall|m: int, x: DiagnosticView|
            0 <= m < n && (#[trigger] block_verdict(blocks[m], probes[m], paths))->Ok_0.contains(x)
                ==> #[trigger] verdicts_until(blocks, probes, paths, n)->Ok_0.contains(x),
        forall|i: int|
            0 <= i < verdicts_until(blocks, probes, paths, n)->Ok_0.len() ==> is_given(
                blocks,
                probes,
                paths,
                n,
                #[trigger] verdicts_until(blocks, probes, paths, n)->Ok_0[i],
            ),
    decreases n,
{
    if n > 0 {
        let before = verdicts_until(blocks, probes, paths, (n - 1) as nat);
        lemma_verdicts_collect(blocks, probes, paths, (n - 1) as nat);
        let last = block_verdict(blocks[n - 1], probes[n - 1], paths)->Ok_0;
        let all = verdicts_until(blocks, probes, paths, n)->Ok_0;
        assert(all == before->Ok_0 + last);
        assert forall|m: int, x: DiagnosticView|
            0 <= m < n && (#[trigger] block_verdict(
                blocks[m],
                probes[m],
                paths,
            ))->Ok_0.contains(x) implies #[trigger] all.contains(x) by {
            if m < n - 1 {
                assert(before->Ok_0.contains(x));
                let i = choose|i: int| 0 <= i < before->Ok_0.len() && before->Ok_0[i] == x;
                assert(all[i] == x);
            } else {
                let i = choose|i: int| 0 <= i < last.len() && last[i] == x;
                assert(all[before->Ok_0.len() + i] == x);
            }
        }
        assert forall|i: int| 0 <= i < all.len() implies is_given(
            blocks,
            probes,
            paths,
            n,
            #[trigger] all[i],
        ) by {
            if i < before->Ok_0.len() {
                assert(all[i] == before->Ok_0[i]);
                assert(is_given(blocks, probes, paths, (n - 1) as nat, before->Ok_0[i]));
                let m = choose|m: int|
                    0 <= m < n - 1 && (#[trigger] block_verdict(
                        blocks[m],
                        probes[m],
                        paths,
                    ))->Ok_0.contains(before->Ok_0[i]);
                assert(block_verdict(blocks[m], probes[m], paths)->Ok_0.contains(all[i]));
            } else {
                assert(all[i] == last[i - before->Ok_0.len()]);
                assert(block_verdict(blocks[n - 1], probes[n - 1], paths)->Ok_0.contains(all[i]));
            }
        }
    }
}

/// Only blocks that need attention are reported. Each diagnostic that an
/// analysis finds points at a block that needs attention: a block with a
/// marker without partner, or one with a line among the modified lines of
/// its file. The one exception is the diagnostic that a failed clone came
/// with, which is handed on as it is.
pub proof fn lemma_reported_blocks_need_attention(
    enabled: bool,
    upstream: bool,
    all: Seq<IctcBlockView>,
    hunks: Seq<HunkView>,
    probes: Seq<BlockProbeView>,
    i: int,
) -> (k: int)
    requires
        analysis(enabled, upstream, all, hunks, probes) is Ok,
        0 <= i < analysis(enabled, upstream, all, hunks, probes)->Ok_0.len(),
    ensures
        0 <= k < all.len(),
        all[k].is_triggered(hunks),
        is_about(analysis(enabled, upstream, all, hunks, probes)->Ok_0[i], all[k]) || exists|m: int|
            0 <= m < probes.len() && (#[trigger] probes[m]).remote == Some(
                RemoteOutcomeView::CloneFailed(
                    analysis(enabled, upstream, all, hunks, probes)->Ok_0[i],
                ),
            ),
{
    let blocks = triggered(all, hunks);
    let paths = block_paths(blocks);
    let found = analysis(enabled, upstream, all, hunks, probes)->Ok_0;
    lemma_verdicts_collect(blocks, probes, paths, blocks.len());
    assert(is_given(blocks, probes, paths, blocks.len(), found[i]));
    let m = choose|m: int|
        0 <= m < blocks.len() && (#[trigger] block_verdict(blocks[m], probes[m], paths))->Ok_0.contains(
            found[i],
        );
    let given = block_verdict(blocks[m], probes[m], paths)->Ok_0;
    let j = choose|j: int| 0 <= j < given.len() && given[j] == found[i];
    lemma_block_verdict_is_about(blocks[m], probes[m], paths, j);
    let p = |b: IctcBlockView| b.is_triggered(hunks);
    all.lemma_filter_pred(p, m);
    assert(all.filter(p).contains(blocks[m]));
    all.lemma_filter_contains_rev(p, blocks[m]);
    let k = choose|k: int| 0 <= k < all.len() && all[k] == blocks[m];
    k
}

/// A modified block with an untouched target is reported. Where the
/// analysis succeeds, a block without a remote source whose lines were
/// modified, and in the file of whose local target no block needs
/// attention, gets the error that expects a change in the target.
pub proof fn lemma_untouched_target_is_reported(
    enabled: bool,
    upstream: bool,
    all: Seq<IctcBlockView>,
    hunks: Seq<HunkView>,
    probes: Seq<BlockProbeView>,
    k: int,
    target: Seq<char>,
)
    requires
        !is_skipped(enabled, upstream, all),
        analysis(enabled, upstream, all, hunks, probes) is Ok,
        0 <= k < all.len(),
        all[k].ifchange is None,
        all[k].thenchange == Some(ThenChangeView::RepoFile(target)),
        all[k].is_triggered(hunks),
        !block_paths(triggered(all, hunks)).contains(path_key_of(target)),
    ensures
        analysis(enabled, upstream, all, hunks, probes)->Ok_0.contains(
            expected_change_diagnostic(all[k], target),
        ),
{
    let blocks = triggered(all, hunks);
    let paths = block_paths(blocks);
    let p = |b: IctcBlockView| b.is_triggered(hunks);
    all.lemma_filter_contains(p, k);
    let m = choose|m: int| 0 <= m < blocks.len() && blocks[m] == all[k];
    lemma_verdicts_collect(blocks, probes, paths, blocks.len());
    let given = block_verdict(blocks[m], probes[m], paths)->Ok_0;
    let wanted = expected_change_diagnostic(all[k], target);
    assert(given[given.len() - 1] == wanted);
    assert(given.contains(wanted));
}

} // verus!
