//! Modified line ranges of the working copy, computed from the line records
//! of a tree-to-working-copy diff.

use crate::diagnostic::{lemma_views_add, lemma_views_push, views};
use crate::paths::same_path;
use vstd::hash_map::StringHashMap;
use vstd::prelude::*;
use vstd::string::*;

verus! {

/// A contiguous run of new or modified lines in one file.
#[derive(Debug)]
pub struct Hunk {
    pub path: String,
    /// 1-indexed line number, inclusive
    pub begin: u64,
    /// 1-indexed line number, exclusive
    pub end: u64,
}

/// Mathematical value of a [`Hunk`].
pub struct HunkView {
    pub path: Seq<char>,
    pub begin: u64,
    pub end: u64,
}

impl View for Hunk {
    type V = HunkView;

    open spec fn view(&self) -> HunkView {
        HunkView { path: self.path@, begin: self.begin, end: self.end }
    }
}

impl Clone for Hunk {
    fn clone(&self) -> (r: Self)
        ensures
            r@ == self@,
    {
        Hunk { path: self.path.clone(), begin: self.begin, end: self.end }
    }
}

/// How a file differs from upstream.
#[derive(Clone, Copy, Debug, PartialEq, Eq, Hash, Structural)]
pub enum FileStatus {
    Added,
    Modified,
    Deleted,
}

/// The changes of the working copy against upstream.
pub struct FileChanges {
    /// Modified line ranges in new and existing files, in diff order
    pub hunks: Vec<Hunk>,
    /// Changed files and how each changed
    pub paths: StringHashMap<FileStatus>,
}

impl Default for FileChanges {
    fn default() -> (r: Self)
        ensures
            r.hunks@.len() == 0,
            r.paths@ == Map::<Seq<char>, FileStatus>::empty(),
    {
        FileChanges { hunks: Vec::new(), paths: StringHashMap::new() }
    }
}

/// The classification that a diff gives to one file.
#[derive(Clone, Copy, Debug, PartialEq, Eq, Structural)]
pub enum DeltaStatus {
    Unmodified,
    Added,
    Deleted,
    Modified,
    Renamed,
    Copied,
    Ignored,
    Untracked,
    Typechange,
    Unreadable,
    Conflicted,
}

impl DeltaStatus {
    /// The status recorded for a changed path; files in any other state of
    /// the diff are not recorded.
    pub open spec fn recorded(self) -> Option<FileStatus> {
        match self {
            DeltaStatus::Added => Some(FileStatus::Added),
            DeltaStatus::Modified => Some(FileStatus::Modified),
            DeltaStatus::Deleted => Some(FileStatus::Deleted),
            _ => None,
        }
    }

    /// Whether the lines of a file in this state are looked at for hunks.
    pub open spec fn has_new_content(self) -> bool {
        self == DeltaStatus::Added || self == DeltaStatus::Copied || self == DeltaStatus::Untracked
            || self == DeltaStatus::Modified || self == DeltaStatus::Renamed
    }

    /// Computes [`DeltaStatus::recorded`].
    pub fn file_status(&self) -> (r: Option<FileStatus>)
        ensures
            r == self.recorded(),
    {
        match self {
            DeltaStatus::Added => Some(FileStatus::Added),
            DeltaStatus::Modified => Some(FileStatus::Modified),
            DeltaStatus::Deleted => Some(FileStatus::Deleted),
            _ => None,
        }
    }

    /// Computes [`DeltaStatus::has_new_content`].
    pub fn carries_new_content(&self) -> (r: bool)
        ensures
            r == self.has_new_content(),
    {
        match self {
            DeltaStatus::Added
            | DeltaStatus::Copied
            | DeltaStatus::Untracked
            | DeltaStatus::Modified
            | DeltaStatus::Renamed => true,
            _ => false,
        }
    }
}

/// One line record of a diff: the line's number in the old and in the new
/// version of the file, where it has one.
#[derive(Clone, Copy, Debug, PartialEq, Eq, Structural)]
pub struct DiffLine {
    pub old_lineno: Option<u32>,
    pub new_lineno: Option<u32>,
}

impl DiffLine {
    /// The line exists only in the new version: it is new or modified.
    pub open spec fn is_addition(self) -> bool {
        self.new_lineno is Some && self.old_lineno is None
    }

    /// The line exists in both versions: context, or a line that only moved.
    pub open spec fn is_context(self) -> bool {
        self.new_lineno is Some && self.old_lineno is Some
    }
}

/// A half-open range of line numbers.
pub struct LineRange {
    pub begin: int,
    pub end: int,
}

/// State of the re-segmentation: the hunks closed so far and the open one.
pub struct Segmentation {
    pub closed: Seq<LineRange>,
    pub current: Option<LineRange>,
}

/// One step of the re-segmentation. A line that exists only in the new
/// version opens or extends the current hunk; a line that exists in both
/// versions closes it; a line that exists only in the old version changes
/// nothing.
pub open spec fn segment_step(st: Segmentation, line: DiffLine) -> Segmentation {
    if line.is_addition() {
        let n = line.new_lineno->0 as int;
        Segmentation {
            closed: st.closed,
            current: Some(
                LineRange {
                    begin: if st.current is Some {
                        st.current->0.begin
                    } else {
                        n
                    },
                    end: n + 1,
                },
            ),
        }
    } else if line.is_context() && st.current is Some {
        Segmentation { closed: st.closed.push(st.current->0), current: None }
    } else {
        st
    }
}

/// The state after the first `n` line records.
pub open spec fn segment_prefix(lines: Seq<DiffLine>, n: nat) -> Segmentation
    decreases n,
{
    if n == 0 || n > lines.len() {
        Segmentation { closed: Seq::empty(), current: None }
    } else {
        segment_step(segment_prefix(lines, (n - 1) as nat), lines[n - 1])
    }
}

/// The hunks of one file: the closed ones, then the one still open at the
/// end of the file.
pub open spec fn segment(lines: Seq<DiffLine>) -> Seq<LineRange> {
    let st = segment_prefix(lines, lines.len());
    if st.current is Some {
        st.closed.push(st.current->0)
    } else {
        st.closed
    }
}

/// The hunk of `path` that covers `range`.
pub open spec fn hunk_of(path: Seq<char>, range: LineRange) -> HunkView {
    HunkView { path, begin: range.begin as u64, end: range.end as u64 }
}

/// The hunks of `path` that cover `ranges`, in order.
pub open spec fn hunks_of(path: Seq<char>, ranges: Seq<LineRange>) -> Seq<HunkView> {
    ranges.map_values(|r: LineRange| hunk_of(path, r))
}

/// The hunk that is open while a file's records are walked.
#[derive(Clone, Copy)]
struct OpenHunk {
    begin: u64,
    end: u64,
}

/// Every range of the state ends at most one past the largest `u32`.
spec fn in_bounds(st: Segmentation) -> bool {
    &&& forall|k: int|
        0 <= k < st.closed.len() ==> 0 <= (#[trigger] st.closed[k]).begin <= u32::MAX
            && st.closed[k].end <= u32::MAX + 1
    &&& st.current is Some ==> 0 <= st.current->0.begin <= u32::MAX && st.current->0.end
        <= u32::MAX + 1
}

proof fn lemma_step_in_bounds(st: Segmentation, line: DiffLine)
    requires
        in_bounds(st),
    ensures
        in_bounds(segment_step(st, line)),
{
}

/// Re-segments the line records of one file into hunks of new or modified
/// lines.
pub fn rehunk(path: &str, lines: &Vec<DiffLine>) -> (r: Vec<Hunk>)
    ensures
        views(r@) == hunks_of(path@, segment(lines@)),
{
    let mut closed: Vec<Hunk> = Vec::new();
    let mut current: Option<OpenHunk> = None;
    let ghost mut st = segment_prefix(lines@, 0);
    let mut i: usize = 0;
    while i < lines.len()
        invariant
            i <= lines.len(),
            st == segment_prefix(lines@, i as nat),
            in_bounds(st),
            views(closed@) == hunks_of(path@, st.closed),
            current is Some <==> st.current is Some,
            current is Some ==> current->0.begin == st.current->0.begin && current->0.end
                == st.current->0.end,
        decreases lines.len() - i,
    {
        let line = lines[i];
        proof {
            lemma_step_in_bounds(st, line);
        }
        let ghost next = segment_step(st, line);
        if let Some(n) = line.new_lineno {
            if line.old_lineno.is_none() {
                let begin: u64 = match current {
                    Some(c) => c.begin,
                    None => n as u64,
                };
                current = Some(OpenHunk { begin, end: n as u64 + 1 });
            } else if let Some(c) = current {
                let hunk = Hunk { path: path.to_owned(), begin: c.begin, end: c.end };
                proof {
                    lemma_views_push(closed@, hunk);
                    assert(hunks_of(path@, st.closed.push(st.current->0)) =~= hunks_of(
                        path@,
                        st.closed,
                    ).push(hunk@));
                }
                closed.push(hunk);
                current = None;
            }
        }
        proof {
            st = next;
        }
        i += 1;
    }
    if let Some(c) = current {
        let hunk = Hunk { path: path.to_owned(), begin: c.begin, end: c.end };
        proof {
            lemma_views_push(closed@, hunk);
            assert(hunks_of(path@, st.closed.push(st.current->0)) =~= hunks_of(
                path@,
                st.closed,
            ).push(hunk@));
        }
        closed.push(hunk);
    }
    closed
}

/// The lines that the diff marks as existing only in the new version.
pub open spec fn new_lines(lines: Seq<DiffLine>) -> Set<int> {
    Set::new(
        |l: int|
            exists|i: int|
                0 <= i < lines.len() && (#[trigger] lines[i]).is_addition() && lines[i].new_lineno
                    == Some(l as u32) && 0 <= l <= u32::MAX,
    )
}

/// The lines that the ranges cover.
pub open spec fn covered_lines(ranges: Seq<LineRange>) -> Set<int> {
    Set::new(
        |l: int|
            exists|k: int| 0 <= k < ranges.len() && (#[trigger] ranges[k]).begin <= l < ranges[k].end,
    )
}

/// The number of the last of the first `n` records that has a number in the
/// new version, if that record is an addition.
pub open spec fn open_addition(lines: Seq<DiffLine>, n: nat) -> Option<int>
    decreases n,
{
    if n == 0 || n > lines.len() {
        None
    } else if lines[n - 1].is_addition() {
        Some(lines[n - 1].new_lineno->0 as int)
    } else if lines[n - 1].is_context() {
        None
    } else {
        open_addition(lines, (n - 1) as nat)
    }
}

/// The numbering that a diff gives to added lines: an addition that follows
/// another addition, with nothing but removed lines between them, is the
/// next line of the new version.
pub open spec fn additions_are_consecutive(lines: Seq<DiffLine>) -> bool {
    forall|i: int|
        0 <= i < lines.len() && (#[trigger] lines[i]).is_addition() && open_addition(
            lines,
            i as nat,
        ) is Some ==> lines[i].new_lineno->0 == open_addition(lines, i as nat)->0 + 1
}

/// All ranges of a segmentation state, the open one last.
pub open spec fn all_ranges(st: Segmentation) -> Seq<LineRange> {
    if st.current is Some {
        st.closed.push(st.current->0)
    } else {
        st.closed
    }
}

proof fn lemma_segment_covers(lines: Seq<DiffLine>, n: nat)
    requires
        additions_are_consecutive(lines),
        n <= lines.len(),
    ensures
        covered_lines(all_ranges(segment_prefix(lines, n))) =~= new_lines(lines.take(n as int)),
        segment_prefix(lines, n).current is Some <==> open_addition(lines, n) is Some,
        segment_prefix(lines, n).current is Some ==> segment_prefix(lines, n).current->0.end
            == open_addition(lines, n)->0 + 1 && segment_prefix(lines, n).current->0.begin
            < segment_prefix(lines, n).current->0.end,
        forall|k: int|
            0 <= k < segment_prefix(lines, n).closed.len() ==> (#[trigger] segment_prefix(
                lines,
                n,
            ).closed[k]).begin < segment_prefix(lines, n).closed[k].end,
    decreases n,
{
    let st = segment_prefix(lines, n);
    if n == 0 {
        assert(covered_lines(all_ranges(st)) =~= new_lines(lines.take(0)));
    } else {
        let m = (n - 1) as nat;
        lemma_segment_covers(lines, m);
        let prev = segment_prefix(lines, m);
        let line = lines[n - 1];
        let before = lines.take(m as int);
        let now = lines.take(n as int);
        assert(now.drop_last() =~= before);
        assert(now.last() == line);
        assert forall|l: int| new_lines(now).contains(l) <==> (new_lines(before).contains(l) || (
            line.is_addition() && line.new_lineno == Some(l as u32) && 0 <= l <= u32::MAX)) by {
            if new_lines(now).contains(l) {
                let i = choose|i: int|
                    0 <= i < now.len() && (#[trigger] now[i]).is_addition() && now[i].new_lineno
                        == Some(l as u32) && 0 <= l <= u32::MAX;
                if i < m {
                    assert(before[i] == now[i]);
                }
            }
            if new_lines(before).contains(l) {
                let i = choose|i: int|
                    0 <= i < before.len() && (#[trigger] before[i]).is_addition()
                        && before[i].new_lineno == Some(l as u32) && 0 <= l <= u32::MAX;
                assert(now[i] == before[i]);
            }
            if line.is_addition() && line.new_lineno == Some(l as u32) && 0 <= l <= u32::MAX {
                assert(now[n - 1] == line);
            }
        }
        let old_ranges = all_ranges(prev);
        let new_ranges = all_ranges(st);
        if line.is_addition() {
            let a = line.new_lineno->0 as int;
            assert(lines[n - 1].is_addition());
            assert forall|l: int| covered_lines(new_ranges).contains(l) <==> (covered_lines(
                old_ranges,
            ).contains(l) || l == a) by {
                if covered_lines(new_ranges).contains(l) {
                    let k = choose|k: int|
                        0 <= k < new_ranges.len() && (#[trigger] new_ranges[k]).begin <= l
                            < new_ranges[k].end;
                    if k < prev.closed.len() {
                        assert(old_ranges[k] == new_ranges[k]);
                    } else if prev.current is Some && l != a {
                        assert(old_ranges[prev.closed.len() as int].begin <= l);
                    }
                }
                if covered_lines(old_ranges).contains(l) {
                    let k = choose|k: int|
                        0 <= k < old_ranges.len() && (#[trigger] old_ranges[k]).begin <= l
                            < old_ranges[k].end;
                    if k < prev.closed.len() {
                        assert(new_ranges[k] == old_ranges[k]);
                    } else {
                        assert(new_ranges[prev.closed.len() as int].begin <= l);
                    }
                }
                if l == a {
                    assert(new_ranges[prev.closed.len() as int].begin <= l);
                }
            }
            assert(covered_lines(new_ranges) =~= new_lines(now));
        } else if line.is_context() && prev.current is Some {
            assert(new_ranges =~= old_ranges);
        } else {
            assert(new_ranges =~= old_ranges);
        }
    }
}

/// Hunks cover exactly the new or modified lines. For the line records of
/// one file, numbered as a diff numbers them, a line lies in one of the
/// hunks if and only if the diff marks it as existing only in the new
/// version; lines that merely moved are never covered, however many lines
/// were inserted or removed before them. No hunk is empty.
pub proof fn lemma_hunks_cover_exactly_new_lines(lines: Seq<DiffLine>)
    requires
        additions_are_consecutive(lines),
    ensures
        covered_lines(segment(lines)) == new_lines(lines),
        forall|k: int|
            0 <= k < segment(lines).len() ==> (#[trigger] segment(lines)[k]).begin < segment(
                lines,
            )[k].end,
{
    lemma_segment_covers(lines, lines.len());
    assert(lines.take(lines.len() as int) =~= lines);
}

/// The numbering that a diff gives to the lines of the new version: the
/// records that have a number there carry increasing numbers, from 1 on.
pub open spec fn new_numbers_increase(lines: Seq<DiffLine>) -> bool {
    &&& forall|i: int|
        0 <= i < lines.len() && (#[trigger] lines[i]).new_lineno is Some ==> lines[i].new_lineno->0
            >= 1
    &&& forall|i: int, j: int|
        0 <= i < j < lines.len() && (#[trigger] lines[i]).new_lineno is Some && (
        #[trigger] lines[j]).new_lineno is Some ==> lines[i].new_lineno->0
            < lines[j].new_lineno->0
}

/// The number in the new version of the last of the first `n` records that
/// has one, or `0`.
pub open spec fn last_new_number(lines: Seq<DiffLine>, n: nat) -> int
    decreases n,
{
    if n == 0 || n > lines.len() {
        0
    } else if lines[n - 1].new_lineno is Some {
        lines[n - 1].new_lineno->0 as int
    } else {
        last_new_number(lines, (n - 1) as nat)
    }
}

proof fn lemma_last_new_number(lines: Seq<DiffLine>, n: nat)
    requires
        n <= lines.len(),
    ensures
        last_new_number(lines, n) == 0 || exists|i: int|
            0 <= i < n && (#[trigger] lines[i]).new_lineno == Some(
                last_new_number(lines, n) as u32,
            ),
        0 <= last_new_number(lines, n) <= u32::MAX,
    decreases n,
{
    if n > 0 {
        if lines[n - 1].new_lineno is Some {
            assert(lines[n - 1].new_lineno == Some(last_new_number(lines, n) as u32));
        } else {
            lemma_last_new_number(lines, (n - 1) as nat);
            if last_new_number(lines, n) != 0 {
                let i = choose|i: int|
                    0 <= i < n - 1 && (#[trigger] lines[i]).new_lineno == Some(
                        last_new_number(lines, (n - 1) as nat) as u32,
                    );
                assert(lines[i].new_lineno == Some(last_new_number(lines, n) as u32));
            }
        }
    }
}

/// Whether the line lies in the range.
pub open spec fn holds(range: LineRange, l: int) -> bool {
    range.begin <= l < range.end
}

/// The ranges start at 1 or later, none is empty, and each ends before the
/// next starts.
pub open spec fn ranges_are_separate(ranges: Seq<LineRange>) -> bool {
    &&& forall|k: int|
        0 <= k < ranges.len() ==> 1 <= (#[trigger] ranges[k]).begin < ranges[k].end <= u32::MAX
            + 1
    &&& forall|a: int, b: int|
        0 <= a < b < ranges.len() ==> (#[trigger] ranges[a]).end < (#[trigger] ranges[b]).begin
}

proof fn lemma_segment_separate(lines: Seq<DiffLine>, n: nat)
    requires
        additions_are_consecutive(lines),
        new_numbers_increase(lines),
        n <= lines.len(),
    ensures
        ranges_are_separate(all_ranges(segment_prefix(lines, n))),
        forall|k: int|
            0 <= k < segment_prefix(lines, n).closed.len() ==> (#[trigger] segment_prefix(
                lines,
                n,
            ).closed[k]).end <= last_new_number(lines, n),
        segment_prefix(lines, n).current is Some ==> segment_prefix(lines, n).current->0.end
            == last_new_number(lines, n) + 1,
    decreases n,
{
    let st = segment_prefix(lines, n);
    if n > 0 {
        let m = (n - 1) as nat;
        lemma_segment_separate(lines, m);
        lemma_segment_covers(lines, m);
        lemma_last_new_number(lines, m);
        let prev = segment_prefix(lines, m);
        let line = lines[n - 1];
        let last = last_new_number(lines, m);
        if line.new_lineno is Some {
            let b = line.new_lineno->0 as int;
            assert(lines[n - 1].new_lineno is Some);
            assert(last < b) by {
                if last != 0 {
                    let i = choose|i: int|
                        0 <= i < m && (#[trigger] lines[i]).new_lineno == Some(last as u32);
                    assert(lines[i].new_lineno->0 < lines[n - 1].new_lineno->0);
                }
            }
            let old_ranges = all_ranges(prev);
            let new_ranges = all_ranges(st);
            if line.is_addition() {
                assert(lines[n - 1].is_addition());
                assert forall|k: int| 0 <= k < prev.closed.len() implies new_ranges[k]
                    == old_ranges[k] by {}
                assert(ranges_are_separate(new_ranges));
            } else {
                assert(new_ranges =~= old_ranges);
            }
        }
    }
}

/// Hunks keep apart. For the line records of one file, numbered as a diff
/// numbers them, the hunks start at line 1 or later, none is empty, and each
/// ends before the next starts; so every new or modified line lies in
/// exactly one hunk, and no line that exists in both versions lies in any.
pub proof fn lemma_hunks_are_separate(lines: Seq<DiffLine>)
    requires
        additions_are_consecutive(lines),
        new_numbers_increase(lines),
    ensures
        ranges_are_separate(segment(lines)),
        forall|a: int, b: int, l: int|
            0 <= a < segment(lines).len() && 0 <= b < segment(lines).len() && #[trigger] holds(
                segment(lines)[a],
                l,
            ) && #[trigger] holds(segment(lines)[b], l) ==> a == b,
        forall|i: int|
            0 <= i < lines.len() && (#[trigger] lines[i]).is_context() ==> !covered_lines(
                segment(lines),
            ).contains(lines[i].new_lineno->0 as int),
{
    lemma_segment_separate(lines, lines.len());
    lemma_hunks_cover_exactly_new_lines(lines);
    assert forall|i: int| 0 <= i < lines.len() && (#[trigger] lines[i]).is_context() implies
        !covered_lines(segment(lines)).contains(lines[i].new_lineno->0 as int) by {
        let l = lines[i].new_lineno->0 as int;
        if new_lines(lines).contains(l) {
            let j = choose|j: int|
                0 <= j < lines.len() && (#[trigger] lines[j]).is_addition() && lines[j].new_lineno
                    == Some(l as u32) && 0 <= l <= u32::MAX;
            if j < i {
                assert(lines[j].new_lineno->0 < lines[i].new_lineno->0);
            } else if i < j {
                assert(lines[i].new_lineno->0 < lines[j].new_lineno->0);
            }
        }
    }
}

/// Every hunk of the changes is a hunk of one of the files.
proof fn lemma_hunk_has_file(deltas: Seq<FileDeltaView>, n: nat, k: int) -> (i: int)
    requires
        n <= deltas.len(),
        0 <= k < hunks_until(deltas, n).len(),
    ensures
        0 <= i < n,
        deltas[i].hunks().contains(hunks_until(deltas, n)[k]),
    decreases n,
{
    let before = hunks_until(deltas, (n - 1) as nat);
    if k < before.len() {
        lemma_hunk_has_file(deltas, (n - 1) as nat, k)
    } else {
        assert(deltas[n - 1].hunks()[k - before.len()] == hunks_until(deltas, n)[k]);
        n - 1
    }
}

/// The changes of a working copy cover only new lines. Where the records of
/// every file are numbered as a diff numbers them, each line of each hunk of
/// the changes is a line that the diff of a file of the hunk's path marks as
/// existing only in the new version, and no record of that file says that
/// the line exists in both versions.
pub proof fn lemma_changes_cover_only_new_lines(deltas: Seq<FileDeltaView>, k: int, l: int) -> (i:
    int)
    requires
        forall|i: int|
            0 <= i < deltas.len() ==> additions_are_consecutive((#[trigger] deltas[i]).lines)
                && new_numbers_increase(deltas[i].lines),
        0 <= k < hunks_until(deltas, deltas.len()).len(),
        hunks_until(deltas, deltas.len())[k].begin <= l < hunks_until(deltas, deltas.len())[k].end,
    ensures
        0 <= i < deltas.len(),
        deltas[i].is_analyzed(),
        deltas[i].path == Some(hunks_until(deltas, deltas.len())[k].path),
        new_lines(deltas[i].lines).contains(l),
        forall|j: int|
            0 <= j < deltas[i].lines.len() && (#[trigger] deltas[i].lines[j]).is_context()
                ==> deltas[i].lines[j].new_lineno->0 != l,
{
    let hunk = hunks_until(deltas, deltas.len())[k];
    let i = lemma_hunk_has_file(deltas, deltas.len(), k);
    let d = deltas[i];
    let ranges = segment(d.lines);
    let found = d.hunks();
    let m = choose|m: int| 0 <= m < found.len() && found[m] == hunk;
    assert(found[m] == hunk_of(d.path->0, ranges[m]));
    lemma_hunks_are_separate(d.lines);
    lemma_hunks_cover_exactly_new_lines(d.lines);
    assert(ranges[m].begin <= l < ranges[m].end);
    assert(covered_lines(ranges).contains(l));
    assert forall|j: int| 0 <= j < d.lines.len() && (#[trigger] d.lines[j]).is_context() implies
        d.lines[j].new_lineno->0 != l by {
        assert(!covered_lines(ranges).contains(d.lines[j].new_lineno->0 as int));
    }
    i
}

/// The lines of `path` that the hunks mark as new or modified: the union of
/// the ranges of its hunks. A hunk is of `path` where its path has the same
/// components.
pub open spec fn modified_lines(hunks: Seq<HunkView>, path: Seq<char>) -> Set<int> {
    Set::new(
        |l: int|
            exists|k: int|
                0 <= k < hunks.len() && same_path((#[trigger] hunks[k]).path, path)
                    && hunks[k].begin <= l < hunks[k].end,
    )
}

/// One changed file of a diff, as the diff provider reports it.
#[derive(Debug)]
pub struct FileDelta {
    /// The file's path in the new version, where it has one
    pub path: Option<String>,
    pub status: DeltaStatus,
    /// Whether an external large-object filter manages the file
    pub externally_filtered: bool,
    /// The file's line records, in file order
    pub lines: Vec<DiffLine>,
}

/// Mathematical value of a [`FileDelta`].
pub struct FileDeltaView {
    pub path: Option<Seq<char>>,
    pub status: DeltaStatus,
    pub externally_filtered: bool,
    pub lines: Seq<DiffLine>,
}

impl View for FileDelta {
    type V = FileDeltaView;

    open spec fn view(&self) -> FileDeltaView {
        FileDeltaView {
            path: match self.path {
                Some(p) => Some(p@),
                None => None,
            },
            status: self.status,
            externally_filtered: self.externally_filtered,
            lines: self.lines@,
        }
    }
}

impl FileDeltaView {
    /// Whether the file takes part in the analysis at all.
    pub open spec fn is_analyzed(self) -> bool {
        self.path is Some && !self.externally_filtered
    }

    /// The hunks of this file.
    pub open spec fn hunks(self) -> Seq<HunkView> {
        if self.is_analyzed() && self.status.has_new_content() {
            hunks_of(self.path->0, segment(self.lines))
        } else {
            Seq::empty()
        }
    }
}

/// The hunks of the first `n` files, in order.
pub open spec fn hunks_until(deltas: Seq<FileDeltaView>, n: nat) -> Seq<HunkView>
    decreases n,
{
    if n == 0 || n > deltas.len() {
        Seq::empty()
    } else {
        hunks_until(deltas, (n - 1) as nat) + deltas[n - 1].hunks()
    }
}

/// The statuses recorded for the first `n` files. A later file replaces an
/// earlier one of the same path.
pub open spec fn paths_until(deltas: Seq<FileDeltaView>, n: nat) -> Map<Seq<char>, FileStatus>
    decreases n,
{
    if n == 0 || n > deltas.len() {
        Map::empty()
    } else {
        let before = paths_until(deltas, (n - 1) as nat);
        let d = deltas[n - 1];
        if d.is_analyzed() && d.status.recorded() is Some {
            before.insert(d.path->0, d.status.recorded()->0)
        } else {
            before
        }
    }
}

/// Collects the changes of the working copy from the files of a diff: the
/// status of each added, modified or deleted file, and the hunks of new or
/// modified lines of each file that has content in the new version. Files
/// without a path and externally filtered files are left out.
pub fn modified_since(deltas: &Vec<FileDelta>) -> (r: FileChanges)
    ensures
        views(r.hunks@) == hunks_until(views(deltas@), deltas.len() as nat),
        r.paths@ == paths_until(views(deltas@), deltas.len() as nat),
{
    let mut ret = FileChanges::default();
    let mut i: usize = 0;
    assert(views(ret.hunks@) =~= hunks_until(views(deltas@), 0));
    while i < deltas.len()
        invariant
            i <= deltas.len(),
            views(ret.hunks@) == hunks_until(views(deltas@), i as nat),
            ret.paths@ == paths_until(views(deltas@), i as nat),
        decreases deltas.len() - i,
    {
        let delta = &deltas[i];
        assert(views(deltas@)[i as int] == delta@);
        if let Some(path) = &delta.path {
            if !delta.externally_filtered {
                if let Some(status) = delta.status.file_status() {
                    ret.paths.insert(path.clone(), status);
                }
                if delta.status.carries_new_content() {
                    let mut hunks = rehunk(path.as_str(), &delta.lines);
                    proof {
                        lemma_views_add(ret.hunks@, hunks@);
                    }
                    ret.hunks.append(&mut hunks);
                }
            }
        }
        assert(views(ret.hunks@) =~= hunks_until(views(deltas@), (i + 1) as nat));
        i += 1;
    }
    ret
}

/// What looking up the `filter` attribute of a path gave.
#[derive(Debug)]
pub enum FilterAttribute {
    /// The attribute is set, without a value
    True,
    /// The attribute is unset
    False,
    /// The attribute is not specified
    Unspecified,
    /// The attribute is set to these bytes
    Value(Vec<u8>),
}

/// The bytes of `lfs`, the name of the filter that marks a file as managed
/// by large-file storage.
pub open spec fn lfs_filter_name() -> Seq<u8> {
    seq![108u8, 102u8, 115u8]
}

/// Whether the outcome of an attribute lookup marks the file as managed by
/// large-file storage. A failed lookup (`None`) does not.
pub open spec fn marks_lfs(lookup: Option<FilterAttribute>) -> bool {
    lookup matches Some(FilterAttribute::Value(v)) && v@ == lfs_filter_name()
}

/// Decides whether the outcome of looking up a path's `filter` attribute
/// marks the path as managed by large-file storage: the attribute must be
/// set to exactly `lfs`.
pub fn is_lfs(lookup: &Option<FilterAttribute>) -> (r: bool)
    ensures
        r == marks_lfs(*lookup),
{
    match lookup {
        Some(FilterAttribute::Value(v)) => {
            let r = v.len() == 3 && v[0] == 108u8 && v[1] == 102u8 && v[2] == 115u8;
            assert(r == (v@ =~= lfs_filter_name()));
            r
        },
        _ => false,
    }
}

/// Remembers, for each path asked about, whether it is externally filtered.
pub struct AttributeFilter {
    cache: StringHashMap<bool>,
}

impl AttributeFilter {
    /// The answers remembered so far.
    pub closed spec fn known(&self) -> Map<Seq<char>, bool> {
        self.cache@
    }

    /// A filter that remembers nothing yet.
    pub fn new() -> (r: Self)
        ensures
            r.known() == Map::<Seq<char>, bool>::empty(),
    {
        AttributeFilter { cache: StringHashMap::new() }
    }

    /// The remembered answer for `path`, if there is one.
    pub fn lookup(&self, path: &str) -> (r: Option<bool>)
        ensures
            r == (if self.known().contains_key(path@) {
                Some(self.known()[path@])
            } else {
                None
            }),
    {
        match self.cache.get(path) {
            Some(b) => Some(*b),
            None => None,
        }
    }

    /// Whether `path` is externally filtered, given the outcome of looking
    /// up its `filter` attribute. The first answer for a path is remembered
    /// and given again whatever a later lookup says.
    pub fn is_externally_filtered(&mut self, path: &str, lookup: &Option<FilterAttribute>) -> (r:
        bool)
        ensures
            old(self).known().contains_key(path@) ==> r == old(self).known()[path@]
                && final(self).known() == old(self).known(),
            !old(self).known().contains_key(path@) ==> r == marks_lfs(*lookup)
                && final(self).known() == old(self).known().insert(path@, r),
    {
        match self.cache.get(path) {
            Some(b) => *b,
            None => {
                let r = is_lfs(lookup);
                self.cache.insert(path.to_owned(), r);
                r
            },
        }
    }
}

} // verus!
