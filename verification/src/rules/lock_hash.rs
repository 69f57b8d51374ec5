//! Recording a lock hash: the edit that the analysis proposes, applied to
//! the line of the opening marker, is read back as the lock hash.

use crate::diagnostic::{DiagnosticView, ReplacementView};
use crate::rules::if_change_then_change::{source_trigger_of, IctcBlockView, IfChangeView};
use crate::rules::remote_check::{remote_verdict, CommitView, RemoteOutcomeView};
use crate::rules::remote_location::{remote_location_of, replacement_for_hash};
use crate::rules::markers::{
    comment_token_end, has_whitespace, is_opening_marker, keyword_at, lemma_remote_bounds,
    lemma_trigger_text, marker_tail_start, opening_keyword, path_end, remote_parts, repo_end,
    target_end, target_start, trigger_end, trigger_start, trigger_text,
};
use crate::text::{
    exactly, first_match, is_whitespace, lemma_first_match,
    lemma_first_match_agrees, lemma_first_match_is, lemma_last_match_end,
    lemma_last_match_end_is, lemma_trim_bounds, non_whitespace, trim_end_index,
    trim_start_index, whitespace,
};
use vstd::prelude::*;

verus! {

/// `line` after the edit: the characters of the deleted region give way to
/// the inserted content. The region lies in one line.
pub open spec fn apply_replacement(line: Seq<char>, edit: ReplacementView) -> Seq<char> {
    line.subrange(0, edit.deleted_region.start.character as int) + edit.inserted_content
        + line.subrange(edit.deleted_region.end.character as int, line.len() as int)
}

/// No character of the text is whitespace.
pub open spec fn is_one_word(text: Seq<char>) -> bool {
    forall|i: int| 0 <= i < text.len() ==> !is_whitespace(#[trigger] text[i])
}

/// `line` with the characters from `cut` up to `end` replaced by `word`.
pub open spec fn replace_range(line: Seq<char>, cut: int, end: int, word: Seq<char>) -> Seq<char> {
    line.subrange(0, cut) + word + line.subrange(end, line.len() as int)
}

/// A marker stays a marker when the end of its trigger text, from `cut` on,
/// gives way to a word, and its trigger text then ends with that word.
proof fn lemma_marker_with_ending(line: Seq<char>, keyword: Seq<char>, cut: int, word: Seq<char>)
    requires
        marker_tail_start(line, keyword) is Some,
        trigger_start(line, keyword) < cut <= trigger_end(line, keyword),
        is_one_word(word),
        word.len() > 0 || !is_whitespace(line[cut - 1]),
    ensures
        marker_tail_start(
            replace_range(line, cut, trigger_end(line, keyword), word),
            keyword,
        ) == marker_tail_start(line, keyword),
        trigger_start(replace_range(line, cut, trigger_end(line, keyword), word), keyword)
            == trigger_start(line, keyword),
        trigger_end(replace_range(line, cut, trigger_end(line, keyword), word), keyword) == cut
            + word.len(),
        trigger_text(replace_range(line, cut, trigger_end(line, keyword), word), keyword)
            == line.subrange(trigger_start(line, keyword), cut) + word,
{
    lemma_trigger_text(line, keyword);
    let k = marker_tail_start(line, keyword)->0;
    let start = trigger_start(line, keyword);
    let e = trigger_end(line, keyword);
    let fixed = replace_range(line, cut, e, word);
    let h = word.len() as int;
    let len = line.len() as int;
    let d = cut + h - e;
    assert(fixed.len() == len + d);
    assert forall|j: int| 0 <= j < cut implies fixed[j] == line[j] by {}
    assert forall|j: int| cut <= j < cut + h implies fixed[j] == word[j - cut] by {}
    assert forall|j: int| cut + h <= j < len + d implies fixed[j] == line[j - d] by {}
    // the prefix up to the keyword
    let token_at = first_match(line, 0, non_whitespace());
    lemma_first_match(line, 0, non_whitespace());
    let token_end = comment_token_end(line, token_at)->0;
    let c = first_match(line, token_end, non_whitespace());
    lemma_first_match(line, token_end, non_whitespace());
    assert(k == c + keyword.len());
    assert(token_at < token_end <= c <= k <= start < cut);
    lemma_first_match_agrees(line, fixed, 0, non_whitespace(), cut);
    assert(comment_token_end(fixed, token_at) == Some(token_end));
    lemma_first_match_agrees(line, fixed, token_end, non_whitespace(), cut);
    assert(fixed.subrange(c, c + keyword.len()) =~= line.subrange(c, c + keyword.len()));
    assert(keyword_at(fixed, c, keyword));
    // no line feed behind the keyword
    lemma_first_match(line, k, exactly('\n'));
    assert forall|j: int| k <= j < fixed.len() implies !exactly('\n')(#[trigger] fixed[j]) by {
        if j < cut {
            assert(!exactly('\n')(line[j]));
        } else if j < cut + h {
            assert(!is_whitespace(word[j - cut]));
        } else {
            assert(!exactly('\n')(line[j - d]));
        }
    }
    lemma_first_match_is(fixed, k, exactly('\n'), fixed.len() as int);
    assert(marker_tail_start(fixed, keyword) == Some(k));
    // the trimmed tail
    let tail = line.subrange(k, len);
    let tail2 = fixed.subrange(k, fixed.len() as int);
    lemma_trim_bounds(tail);
    let a0 = trim_start_index(tail);
    let b0 = trim_end_index(tail);
    assert(a0 == start - k && b0 == e - k);
    assert(a0 < b0);
    let c0 = cut - k;
    lemma_first_match_agrees(tail, tail2, 0, non_whitespace(), c0);
    assert(trim_start_index(tail2) == a0);
    lemma_last_match_end(tail, tail.len() as int, non_whitespace());
    assert forall|j: int| c0 + h <= j < tail2.len() implies !non_whitespace()(
        #[trigger] tail2[j],
    ) by {
        assert(tail2[j] == tail[j - d]);
        assert(!non_whitespace()(tail[j - d]));
    }
    if h > 0 {
        assert(tail2[c0 + h - 1] == word[h - 1]);
    } else {
        assert(tail2[c0 - 1] == line[cut - 1]);
    }
    assert(non_whitespace()(tail2[c0 + h - 1]));
    lemma_last_match_end_is(tail2, tail2.len() as int, non_whitespace(), c0 + h);
    assert(trim_end_index(tail2) == c0 + h);
    assert(trigger_text(fixed, keyword) =~= line.subrange(start, cut) + word);
}

/// The words of a trigger text that got a lock hash at its end.
proof fn lemma_parts_with_lock_hash(text: Seq<char>, hash: Seq<char>)
    requires
        text.len() > 0,
        !is_whitespace(text.last()),
        has_whitespace(text),
        target_end(text) == text.len(),
        remote_parts(text).lock_hash.len() == 0,
        hash.len() > 0,
        is_one_word(hash),
    ensures
        has_whitespace(text + seq!['#'] + hash),
        remote_parts(text + seq!['#'] + hash).repo == remote_parts(text).repo,
        remote_parts(text + seq!['#'] + hash).path == remote_parts(text).path,
        remote_parts(text + seq!['#'] + hash).lock_hash.len() > 0,
        path_end(text) == text.len() ==> remote_parts(text + seq!['#'] + hash).lock_hash == hash,
{
    let word = seq!['#'] + hash;
    let fixed = text + seq!['#'] + hash;
    assert(fixed =~= text + word);
    let len = text.len() as int;
    let h = word.len() as int;
    assert forall|j: int| 0 <= j < len implies fixed[j] == text[j] by {}
    assert forall|j: int| len <= j < len + h implies fixed[j] == word[j - len] by {}
    assert forall|j: int| 0 <= j < h implies !is_whitespace(#[trigger] word[j]) by {
        if j > 0 {
            assert(word[j] == hash[j - 1]);
        }
    }
    lemma_remote_bounds(text);
    let r0 = repo_end(text);
    lemma_first_match(text, 0, whitespace());
    lemma_first_match_agrees(text, fixed, 0, whitespace(), len);
    assert(repo_end(fixed) == r0);
    let t0 = target_start(text);
    lemma_first_match(text, r0, non_whitespace());
    if t0 == len {
        assert(non_whitespace()(text[len - 1]));
        assert(false);
    }
    lemma_first_match_agrees(text, fixed, r0, non_whitespace(), len);
    assert(target_start(fixed) == t0);
    lemma_first_match(text, t0, whitespace());
    assert forall|j: int| t0 <= j < fixed.len() implies !whitespace()(#[trigger] fixed[j]) by {
        if j < len {
            assert(!whitespace()(text[j]));
        } else {
            assert(!is_whitespace(word[j - len]));
        }
    }
    lemma_first_match_is(fixed, t0, whitespace(), fixed.len() as int);
    assert(target_end(fixed) == fixed.len());
    let whole = text.subrange(0, len);
    assert(whole =~= text);
    let whole2 = fixed.subrange(0, fixed.len() as int);
    assert(whole2 =~= fixed);
    let p0 = path_end(text);
    lemma_first_match(text, t0, exactly('#'));
    if p0 == len {
        assert forall|j: int| t0 <= j < len implies !exactly('#')(#[trigger] fixed[j]) by {
            assert(!exactly('#')(text[j]));
        }
        assert(fixed[len] == word[0]);
        lemma_first_match_is(fixed, t0, exactly('#'), len);
        assert(path_end(fixed) == len);
        assert(remote_parts(fixed).lock_hash =~= hash);
        assert(remote_parts(fixed).path =~= remote_parts(text).path);
    } else {
        assert(remote_parts(text).lock_hash == text.subrange(p0 + 1, len));
        assert(p0 == len - 1);
        lemma_first_match_agrees(text, fixed, t0, exactly('#'), len);
        assert(path_end(fixed) == p0);
        assert(remote_parts(fixed).path =~= remote_parts(text).path);
        assert(remote_parts(fixed).lock_hash.len() == h);
    }
    assert(remote_parts(fixed).repo =~= remote_parts(text).repo);
}

/// Whether one of the diagnostics asks for a lock hash.
pub open spec fn asks_for_lock_hash(diagnostics: Seq<DiagnosticView>) -> bool {
    exists|i: int|
        0 <= i < diagnostics.len() && (#[trigger] diagnostics[i]).code
            == "if-change-update-lock-hash"@
}

/// Recording the lock hash settles the request for it.
///
/// Take an opening marker that names a file of another repository by
/// exactly two words and without a lock hash, and apply to its line the edit
/// that the analysis proposes for the hash `hash`, a word of its own. Then
/// the line is still an opening marker for the same repository and path,
/// now with a lock hash, and the analysis does not ask for a lock hash
/// again, whatever the last commit is. Where the second word held no `#`,
/// the lock hash read back is `hash`, and a last commit whose hash starts
/// with it gives no diagnostic at all.
pub proof fn lemma_recorded_lock_hash_is_read_back(
    line: Seq<char>,
    line_no: u64,
    hash: Seq<char>,
    block: IctcBlockView,
    commit: CommitView,
)
    requires
        line.len() <= u64::MAX,
        is_opening_marker(line),
        has_whitespace(trigger_text(line, opening_keyword())),
        target_end(trigger_text(line, opening_keyword())) == trigger_text(
            line,
            opening_keyword(),
        ).len(),
        remote_location_of(line, line_no).lock_hash.len() == 0,
        hash.len() > 0,
        is_one_word(hash),
    ensures
        ({
            let before = remote_location_of(line, line_no);
            let fixed = apply_replacement(line, replacement_for_hash(before, hash));
            let after = remote_location_of(fixed, line_no);
            let verdict = remote_verdict(after, block, RemoteOutcomeView::LastCommit(commit));
            &&& is_opening_marker(fixed)
            &&& source_trigger_of(fixed, line_no) == Some(IfChangeView::RemoteFile(after))
            &&& after.repo == before.repo
            &&& after.path == before.path
            &&& after.lock_hash.len() > 0
            &&& after.block.location.start == before.block.location.start
            &&& after.block.text == before.block.text + seq!['#'] + hash
            &&& !asks_for_lock_hash(verdict.diagnostics)
            &&& path_end(trigger_text(line, opening_keyword())) == trigger_text(
                line,
                opening_keyword(),
            ).len() ==> after.lock_hash == hash && (hash.is_prefix_of(commit.hash)
                ==> verdict.diagnostics.len() == 0)
        }),
{
    let keyword = opening_keyword();
    let text = trigger_text(line, keyword);
    let before = remote_location_of(line, line_no);
    let word = seq!['#'] + hash;
    lemma_trigger_text(line, keyword);
    lemma_first_match(text, 0, whitespace());
    assert(text.len() > 0);
    let e = trigger_end(line, keyword);
    assert(before.block.location.end.character == e);
    let fixed = apply_replacement(line, replacement_for_hash(before, hash));
    assert(fixed =~= replace_range(line, e, e, word));
    assert forall|j: int| 0 <= j < word.len() implies !is_whitespace(#[trigger] word[j]) by {
        if j > 0 {
            assert(word[j] == hash[j - 1]);
        }
    }
    lemma_marker_with_ending(line, keyword, e, word);
    assert(line.subrange(trigger_start(line, keyword), e) == text);
    let tail = line.subrange(marker_tail_start(line, keyword)->0, line.len() as int);
    lemma_trim_bounds(tail);
    lemma_parts_with_lock_hash(text, hash);
    assert(text + word =~= text + seq!['#'] + hash);
    let after = remote_location_of(fixed, line_no);
    let verdict = remote_verdict(after, block, RemoteOutcomeView::LastCommit(commit));
    assert(!asks_for_lock_hash(verdict.diagnostics)) by {
        reveal_strlit("if-change-update-lock-hash");
        reveal_strlit("if-change-remote-updated-new-hash");
        if asks_for_lock_hash(verdict.diagnostics) {
            let i = choose|i: int|
                0 <= i < verdict.diagnostics.len() && (#[trigger] verdict.diagnostics[i]).code
                    == "if-change-update-lock-hash"@;
            assert(verdict.diagnostics[i].code == "if-change-remote-updated-new-hash"@);
            assert("if-change-update-lock-hash"@.len() == 26);
            assert("if-change-remote-updated-new-hash"@.len() == 33);
        }
    }
}

/// The words of a trigger text whose lock hash gave way to another.
proof fn lemma_parts_with_new_lock_hash(text: Seq<char>, hash: Seq<char>)
    requires
        has_whitespace(text),
        target_end(text) == text.len(),
        path_end(text) < text.len(),
        is_one_word(hash),
    ensures
        has_whitespace(text.subrange(0, path_end(text) + 1) + hash),
        remote_parts(text.subrange(0, path_end(text) + 1) + hash).repo == remote_parts(text).repo,
        remote_parts(text.subrange(0, path_end(text) + 1) + hash).path == remote_parts(text).path,
        remote_parts(text.subrange(0, path_end(text) + 1) + hash).lock_hash == hash,
{
    lemma_remote_bounds(text);
    let len = text.len() as int;
    let p0 = path_end(text);
    let cut = p0 + 1;
    let fixed = text.subrange(0, cut) + hash;
    let h = hash.len() as int;
    assert forall|j: int| 0 <= j < cut implies fixed[j] == text[j] by {}
    assert forall|j: int| cut <= j < cut + h implies fixed[j] == hash[j - cut] by {}
    let r0 = repo_end(text);
    let t0 = target_start(text);
    lemma_first_match(text, 0, whitespace());
    lemma_first_match(text, r0, non_whitespace());
    lemma_first_match(text, t0, whitespace());
    let whole = text.subrange(0, len);
    assert(whole =~= text);
    lemma_first_match(text, t0, exactly('#'));
    assert(exactly('#')(text[p0]));
    assert(!whitespace()(text[p0]));
    assert(r0 < t0);
    lemma_first_match_agrees(text, fixed, 0, whitespace(), cut);
    lemma_first_match_agrees(text, fixed, r0, non_whitespace(), cut);
    assert(target_start(fixed) == t0);
    assert forall|j: int| t0 <= j < fixed.len() implies !whitespace()(#[trigger] fixed[j]) by {
        if j < cut {
            assert(!whitespace()(text[j]));
        } else {
            assert(!is_whitespace(hash[j - cut]));
        }
    }
    lemma_first_match_is(fixed, t0, whitespace(), fixed.len() as int);
    assert(target_end(fixed) == fixed.len());
    let whole2 = fixed.subrange(0, fixed.len() as int);
    assert(whole2 =~= fixed);
    lemma_first_match_agrees(text, fixed, t0, exactly('#'), cut);
    assert(path_end(fixed) == p0);
    assert(remote_parts(fixed).repo =~= remote_parts(text).repo);
    assert(remote_parts(fixed).path =~= remote_parts(text).path);
    assert(remote_parts(fixed).lock_hash =~= hash);
}

/// Replacing a lock hash records the new one.
///
/// Take an opening marker that names a file of another repository by
/// exactly two words, the second with a lock hash, and apply to its line the
/// edit that the analysis proposes for the hash `hash`, a word of its own or
/// empty. Then the line is still an opening marker for the same repository
/// and path; its trigger text starts where it did and is the old one with
/// `hash` in place of the old lock hash; and the lock hash read back is
/// `hash`. A last commit whose hash starts with a `hash` that is not empty
/// then gives no diagnostic.
pub proof fn lemma_replaced_lock_hash_is_read_back(
    line: Seq<char>,
    line_no: u64,
    hash: Seq<char>,
    block: IctcBlockView,
    commit: CommitView,
)
    requires
        line.len() <= u64::MAX,
        is_opening_marker(line),
        has_whitespace(trigger_text(line, opening_keyword())),
        target_end(trigger_text(line, opening_keyword())) == trigger_text(
            line,
            opening_keyword(),
        ).len(),
        remote_location_of(line, line_no).lock_hash.len() > 0,
        is_one_word(hash),
    ensures
        ({
            let before = remote_location_of(line, line_no);
            let fixed = apply_replacement(line, replacement_for_hash(before, hash));
            let after = remote_location_of(fixed, line_no);
            let verdict = remote_verdict(after, block, RemoteOutcomeView::LastCommit(commit));
            &&& is_opening_marker(fixed)
            &&& source_trigger_of(fixed, line_no) == Some(IfChangeView::RemoteFile(after))
            &&& after.repo == before.repo
            &&& after.path == before.path
            &&& after.lock_hash == hash
            &&& after.block.location.start == before.block.location.start
            &&& after.block.text == before.block.text.subrange(
                0,
                before.block.text.len() - before.lock_hash.len(),
            ) + hash
            &&& hash.len() > 0 && hash.is_prefix_of(commit.hash) ==> verdict.diagnostics.len() == 0
        }),
{
    let keyword = opening_keyword();
    let text = trigger_text(line, keyword);
    let before = remote_location_of(line, line_no);
    lemma_trigger_text(line, keyword);
    lemma_remote_bounds(text);
    let start = trigger_start(line, keyword);
    let e = trigger_end(line, keyword);
    let p0 = path_end(text);
    let lock = before.lock_hash;
    assert(p0 < text.len());
    assert(lock.len() == text.len() - p0 - 1);
    let cut = e - lock.len();
    assert(cut == start + p0 + 1);
    assert(before.block.location.end.character == e);
    let fixed = apply_replacement(line, replacement_for_hash(before, hash));
    assert(fixed =~= replace_range(line, cut, e, hash));
    let whole = text.subrange(0, text.len() as int);
    assert(whole =~= text);
    lemma_first_match(text, target_start(text), exactly('#'));
    assert(line[cut - 1] == text[p0]);
    assert(exactly('#')(text[p0]));
    lemma_marker_with_ending(line, keyword, cut, hash);
    assert(line.subrange(start, cut) =~= text.subrange(0, p0 + 1));
    lemma_parts_with_new_lock_hash(text, hash);
    lemma_first_match(text.subrange(0, p0 + 1) + hash, 0, whitespace());
}

} // verus!
