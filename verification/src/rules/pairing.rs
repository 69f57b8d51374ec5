//! How markers pair up: what a scan emits for markers that have no partner.

use crate::rules::if_change_then_change::{
    opened_block, orphan_block, scan, scan_prefix, scan_step, unclosed_block, IctcBlockView,
};
use crate::rules::markers::{is_closing_marker, is_opening_marker};
use vstd::prelude::*;

verus! {

/// The line of the opening marker whose block is open after the first `n`
/// lines, or `0` where no block is open.
pub open spec fn open_line(lines: Seq<Seq<char>>, n: nat) -> nat
    decreases n,
{
    if n == 0 || n > lines.len() {
        0
    } else if is_opening_marker(lines[n - 1]) {
        n
    } else if is_closing_marker(lines[n - 1]) {
        0
    } else {
        open_line(lines, (n - 1) as nat)
    }
}

/// Every block starts at a line from 1 up to and without `bound`, and each
/// block starts behind the one before it.
pub open spec fn starts_increase(blocks: Seq<IctcBlockView>, bound: int) -> bool {
    &&& forall|k: int|
        0 <= k < blocks.len() ==> (#[trigger] blocks[k]).begin is Some && 1 <= blocks[k].begin->0
            < bound
    &&& forall|a: int, b: int|
        0 <= a < b < blocks.len() ==> (#[trigger] blocks[a]).begin->0 < (#[trigger] blocks[
            b
        ]).begin->0
}

/// The shape of the state after `n` lines.
proof fn lemma_prefix_shape(path: Seq<char>, lines: Seq<Seq<char>>, n: nat)
    requires
        n <= lines.len() <= u64::MAX,
    ensures
        open_line(lines, n) <= n,
        scan_prefix(path, lines, n).open is Some <==> open_line(lines, n) > 0,
        open_line(lines, n) > 0 ==> scan_prefix(path, lines, n).open == Some(
            opened_block(path, open_line(lines, n) as u64, lines[open_line(lines, n) - 1]),
        ) && is_opening_marker(lines[open_line(lines, n) - 1]),
        starts_increase(
            scan_prefix(path, lines, n).blocks,
            if open_line(lines, n) > 0 {
                open_line(lines, n) as int
            } else {
                (n + 1) as int
            },
        ),
    decreases n,
{
    if n > 0 {
        lemma_prefix_shape(path, lines, (n - 1) as nat);
    }
}

/// Lines that are no markers leave the state as it is.
proof fn lemma_plain_lines_keep_state(path: Seq<char>, lines: Seq<Seq<char>>, from: nat, to: nat)
    requires
        from <= to <= lines.len(),
        forall|k: int|
            from <= k < to ==> !is_opening_marker(#[trigger] lines[k]) && !is_closing_marker(
                lines[k],
            ),
    ensures
        scan_prefix(path, lines, to) == scan_prefix(path, lines, from),
    decreases to - from,
{
    if from < to {
        lemma_plain_lines_keep_state(path, lines, from, (to - 1) as nat);
    }
}

/// Blocks that were emitted stay where they are.
proof fn lemma_blocks_stay(path: Seq<char>, lines: Seq<Seq<char>>, m: nat, n: nat)
    requires
        m <= n <= lines.len(),
    ensures
        scan_prefix(path, lines, m).blocks.len() <= scan_prefix(path, lines, n).blocks.len(),
        forall|k: int|
            0 <= k < scan_prefix(path, lines, m).blocks.len() ==> scan_prefix(
                path,
                lines,
                n,
            ).blocks[k] == #[trigger] scan_prefix(path, lines, m).blocks[k],
    decreases n - m,
{
    if m < n {
        lemma_blocks_stay(path, lines, m, (n - 1) as nat);
    }
}

/// The blocks of a file start at increasing lines, and hold every block that
/// the scan had emitted after any number of lines.
proof fn lemma_scan_shape(path: Seq<char>, lines: Seq<Seq<char>>, m: nat)
    requires
        m <= lines.len() <= u64::MAX,
    ensures
        starts_increase(scan(path, lines), (lines.len() + 1) as int),
        scan_prefix(path, lines, m).blocks.len() <= scan(path, lines).len(),
        forall|k: int|
            0 <= k < scan_prefix(path, lines, m).blocks.len() ==> scan(path, lines)[k]
                == #[trigger] scan_prefix(path, lines, m).blocks[k],
{
    lemma_prefix_shape(path, lines, lines.len());
    lemma_blocks_stay(path, lines, m, lines.len());
}

/// No two blocks of a file start at the same line.
proof fn lemma_one_block_per_line(path: Seq<char>, lines: Seq<Seq<char>>, a: int, b: int)
    requires
        lines.len() <= u64::MAX,
        0 <= a < scan(path, lines).len(),
        0 <= b < scan(path, lines).len(),
        scan(path, lines)[a].begin == scan(path, lines)[b].begin,
    ensures
        a == b,
{
    lemma_scan_shape(path, lines, 0);
}

/// The first opening marker behind line index `i`, up to index `j`.
proof fn lemma_next_opening(lines: Seq<Seq<char>>, i: int, j: int) -> (m: int)
    requires
        0 <= i < j < lines.len(),
        is_opening_marker(lines[j]),
    ensures
        i < m <= j,
        is_opening_marker(lines[m]),
        forall|k: int| i < k < m ==> !is_opening_marker(#[trigger] lines[k]),
    decreases j - i,
{
    if is_opening_marker(lines[i + 1]) {
        i + 1
    } else {
        lemma_next_opening(lines, i + 1, j)
    }
}

/// Whether `block` is the one block of the file that starts at line
/// `line_no`.
pub open spec fn is_only_block_at(
    path: Seq<char>,
    lines: Seq<Seq<char>>,
    line_no: u64,
    block: IctcBlockView,
) -> bool {
    &&& exists|k: int| 0 <= k < scan(path, lines).len() && #[trigger] scan(path, lines)[k] == block
    &&& forall|k: int|
        0 <= k < scan(path, lines).len() && (#[trigger] scan(path, lines)[k]).begin == Some(
            line_no,
        ) ==> scan(path, lines)[k] == block
    &&& forall|a: int, b: int|
        0 <= a < scan(path, lines).len() && 0 <= b < scan(path, lines).len() && (#[trigger] scan(
            path,
            lines,
        )[a]).begin == Some(line_no) && (#[trigger] scan(path, lines)[b]).begin == Some(line_no)
            ==> a == b
}

proof fn lemma_only_block(path: Seq<char>, lines: Seq<Seq<char>>, line_no: u64, k: int)
    requires
        lines.len() <= u64::MAX,
        0 <= k < scan(path, lines).len(),
        scan(path, lines)[k].begin == Some(line_no),
    ensures
        is_only_block_at(path, lines, line_no, scan(path, lines)[k]),
{
    let out = scan(path, lines);
    assert forall|a: int| 0 <= a < out.len() && (#[trigger] out[a]).begin == Some(line_no) implies a
        == k by {
        lemma_one_block_per_line(path, lines, a, k);
    }
}

/// Two opening markers in a row. Where the lines with the indices `i < j`
/// are opening markers and no line between them is a closing marker, the
/// file has exactly one block that starts at the first of the two, and it is
/// marked as missing its closing marker and collapsed to that line.
pub proof fn lemma_second_opening_marker_ends_first(
    path: Seq<char>,
    lines: Seq<Seq<char>>,
    i: int,
    j: int,
)
    requires
        lines.len() <= u64::MAX,
        0 <= i < j < lines.len(),
        is_opening_marker(lines[i]),
        is_opening_marker(lines[j]),
        forall|k: int| i < k < j ==> !is_closing_marker(#[trigger] lines[k]),
    ensures
        is_only_block_at(
            path,
            lines,
            (i + 1) as u64,
            unclosed_block(opened_block(path, (i + 1) as u64, lines[i])),
        ),
{
    let m = lemma_next_opening(lines, i, j);
    lemma_prefix_shape(path, lines, (i + 1) as nat);
    lemma_plain_lines_keep_state(path, lines, (i + 1) as nat, m as nat);
    let before = scan_prefix(path, lines, m as nat);
    let after = scan_prefix(path, lines, (m + 1) as nat);
    assert(after == scan_step(path, before, (m + 1) as u64, lines[m]));
    let k = before.blocks.len() as int;
    assert(after.blocks[k] == unclosed_block(opened_block(path, (i + 1) as u64, lines[i])));
    lemma_scan_shape(path, lines, (m + 1) as nat);
    lemma_only_block(path, lines, (i + 1) as u64, k);
}

/// A closing marker without an opening marker. Where the line with the index
/// `j` is a closing marker, and no line from index `from` up to it is an
/// opening marker, `from` being the start of the file or the line behind
/// another closing marker, the file has exactly one block that starts at
/// line `j + 1`, and it is marked as missing its opening marker and
/// collapsed to that line.
pub proof fn lemma_closing_marker_alone(
    path: Seq<char>,
    lines: Seq<Seq<char>>,
    from: int,
    j: int,
)
    requires
        lines.len() <= u64::MAX,
        0 <= from <= j < lines.len(),
        from == 0 || is_closing_marker(lines[from - 1]),
        is_closing_marker(lines[j]),
        forall|k: int| from <= k < j ==> !is_opening_marker(#[trigger] lines[k]),
    ensures
        is_only_block_at(path, lines, (j + 1) as u64, orphan_block(path, (j + 1) as u64)),
{
    lemma_nothing_open(lines, from, j);
    lemma_prefix_shape(path, lines, j as nat);
    let before = scan_prefix(path, lines, j as nat);
    let after = scan_prefix(path, lines, (j + 1) as nat);
    assert(after == scan_step(path, before, (j + 1) as u64, lines[j]));
    let k = before.blocks.len() as int;
    assert(after.blocks[k] == orphan_block(path, (j + 1) as u64));
    lemma_scan_shape(path, lines, (j + 1) as nat);
    lemma_only_block(path, lines, (j + 1) as u64, k);
}

proof fn lemma_nothing_open(lines: Seq<Seq<char>>, from: int, to: int)
    requires
        0 <= from <= to <= lines.len(),
        from == 0 || is_closing_marker(lines[from - 1]),
        forall|k: int| from <= k < to ==> !is_opening_marker(#[trigger] lines[k]),
    ensures
        open_line(lines, to as nat) == 0,
    decreases to - from,
{
    if from < to {
        lemma_nothing_open(lines, from, to - 1);
    }
}

/// An opening marker that is never closed. Where the line with the index `i`
/// is an opening marker and no later line is a marker, the file has exactly
/// one block that starts at line `i + 1`; it is the last block, marked as
/// missing its closing marker and collapsed to that line.
pub proof fn lemma_open_block_at_end_of_file(path: Seq<char>, lines: Seq<Seq<char>>, i: int)
    requires
        lines.len() <= u64::MAX,
        0 <= i < lines.len(),
        is_opening_marker(lines[i]),
        forall|k: int|
            i < k < lines.len() ==> !is_opening_marker(#[trigger] lines[k]) && !is_closing_marker(
                lines[k],
            ),
    ensures
        is_only_block_at(
            path,
            lines,
            (i + 1) as u64,
            unclosed_block(opened_block(path, (i + 1) as u64, lines[i])),
        ),
        scan(path, lines).len() > 0,
        scan(path, lines).last() == unclosed_block(opened_block(path, (i + 1) as u64, lines[i])),
{
    lemma_prefix_shape(path, lines, (i + 1) as nat);
    lemma_plain_lines_keep_state(path, lines, (i + 1) as nat, lines.len());
    lemma_scan_shape(path, lines, 0);
    lemma_only_block(path, lines, (i + 1) as u64, scan(path, lines).len() - 1);
}

} // verus!
