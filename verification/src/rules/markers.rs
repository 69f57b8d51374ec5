//! The syntax of the marker comments that delimit a block.
//!
//! An opening marker is optional whitespace, a line-comment token (`//` or
//! `#`), optional whitespace, the keyword `ifchange` in any mix of upper and
//! lower case, and then the trigger text up to the end of the line. A closing
//! marker has the keyword `thenchange` in place of `ifchange`. A line that
//! holds a line feed after the keyword is no marker.

use crate::text::{
    ascii_lower, chars_of, exactly, find_char, first_match, lemma_first_match, lemma_trim_bounds,
    non_whitespace, skip_whitespace, slice_chars, to_ascii_lower, trim, trim_end, trim_end_index,
    trim_start_index, whitespace,
};
use vstd::prelude::*;
use vstd::string::*;

verus! {

/// The keyword of an opening marker, in lower case.
pub open spec fn opening_keyword() -> Seq<char> {
    seq!['i', 'f', 'c', 'h', 'a', 'n', 'g', 'e']
}

/// The keyword of a closing marker, in lower case.
pub open spec fn closing_keyword() -> Seq<char> {
    seq!['t', 'h', 'e', 'n', 'c', 'h', 'a', 'n', 'g', 'e']
}

/// `s` with its ASCII letters in lower case.
pub open spec fn lowered(s: Seq<char>) -> Seq<char> {
    s.map_values(|c: char| ascii_lower(c))
}

/// Whether `keyword` stands at index `at` of `line`, in any mix of upper and
/// lower case. `keyword` is in lower case.
pub open spec fn keyword_at(line: Seq<char>, at: int, keyword: Seq<char>) -> bool {
    &&& 0 <= at
    &&& at + keyword.len() <= line.len()
    &&& lowered(line.subrange(at, at + keyword.len())) == keyword
}

/// Where the comment token at index `at` ends, if there is one.
pub open spec fn comment_token_end(line: Seq<char>, at: int) -> Option<int> {
    if 0 <= at && at + 1 < line.len() && line[at] == '/' && line[at + 1] == '/' {
        Some(at + 2)
    } else if 0 <= at < line.len() && line[at] == '#' {
        Some(at + 1)
    } else {
        None
    }
}

/// If `line` is a marker with `keyword`, the index just behind the keyword,
/// where the trigger text starts.
pub open spec fn marker_tail_start(line: Seq<char>, keyword: Seq<char>) -> Option<int> {
    let token_at = first_match(line, 0, non_whitespace());
    match comment_token_end(line, token_at) {
        None => None,
        Some(token_end) => {
            let keyword_start = first_match(line, token_end, non_whitespace());
            let tail_start = keyword_start + keyword.len();
            if keyword_at(line, keyword_start, keyword) && first_match(
                line,
                tail_start,
                exactly('\n'),
            ) == line.len() {
                Some(tail_start)
            } else {
                None
            }
        },
    }
}

/// Whether `line` is an opening marker.
pub open spec fn is_opening_marker(line: Seq<char>) -> bool {
    marker_tail_start(line, opening_keyword()) is Some
}

/// Whether `line` is a closing marker and no opening marker.
pub open spec fn is_closing_marker(line: Seq<char>) -> bool {
    !is_opening_marker(line) && marker_tail_start(line, closing_keyword()) is Some
}

/// Where the trimmed trigger text of a marker starts in its line.
pub open spec fn trigger_start(line: Seq<char>, keyword: Seq<char>) -> int {
    let tail_start = marker_tail_start(line, keyword)->0;
    tail_start + trim_start_index(line.subrange(tail_start, line.len() as int))
}

/// Where the trimmed trigger text of a marker ends in its line.
pub open spec fn trigger_end(line: Seq<char>, keyword: Seq<char>) -> int {
    let tail_start = marker_tail_start(line, keyword)->0;
    tail_start + trim_end_index(line.subrange(tail_start, line.len() as int))
}

/// The trigger text of a marker: what follows the keyword, without leading
/// and trailing whitespace.
pub open spec fn trigger_text(line: Seq<char>, keyword: Seq<char>) -> Seq<char> {
    line.subrange(trigger_start(line, keyword), trigger_end(line, keyword))
}

/// The trigger text is the trimmed tail of the line, and lies inside it.
pub proof fn lemma_trigger_text(line: Seq<char>, keyword: Seq<char>)
    requires
        marker_tail_start(line, keyword) is Some,
    ensures
        0 <= marker_tail_start(line, keyword)->0 <= trigger_start(line, keyword) <= trigger_end(
            line,
            keyword,
        ) <= line.len(),
        trigger_text(line, keyword) == trim(
            line.subrange(marker_tail_start(line, keyword)->0, line.len() as int),
        ),
{
    let token_at = first_match(line, 0, non_whitespace());
    lemma_first_match(line, 0, non_whitespace());
    let token_end = comment_token_end(line, token_at)->0;
    lemma_first_match(line, token_end, non_whitespace());
    let k = marker_tail_start(line, keyword)->0;
    let tail = line.subrange(k, line.len() as int);
    lemma_trim_bounds(tail);
    assert(trigger_text(line, keyword) =~= trim(tail));
}

/// Whether the text holds whitespace, that is, more than one word.
pub open spec fn has_whitespace(text: Seq<char>) -> bool {
    first_match(text, 0, whitespace()) < text.len()
}

/// The pieces of a reference to a file of another repository.
pub struct RemoteParts {
    pub repo: Seq<char>,
    pub path: Seq<char>,
    pub lock_hash: Seq<char>,
}

/// Where the first word of `text` ends.
pub open spec fn repo_end(text: Seq<char>) -> int {
    first_match(text, 0, whitespace())
}

/// Where the second word of `text` starts.
pub open spec fn target_start(text: Seq<char>) -> int {
    first_match(text, repo_end(text), non_whitespace())
}

/// Where the second word of `text` ends.
pub open spec fn target_end(text: Seq<char>) -> int {
    first_match(text, target_start(text), whitespace())
}

/// Where the path ends within the second word: at its first `#`, or at its
/// end.
pub open spec fn path_end(text: Seq<char>) -> int {
    first_match(text.subrange(0, target_end(text)), target_start(text), exactly('#'))
}

/// Reads a trigger text as `<repository> <path>[#<lock hash>]`. The
/// repository is the first word and the second word holds the path; what
/// follows the first `#` of the second word is the lock hash. Further words
/// are ignored.
pub open spec fn remote_parts(text: Seq<char>) -> RemoteParts {
    RemoteParts {
        repo: text.subrange(0, repo_end(text)),
        path: text.subrange(target_start(text), path_end(text)),
        lock_hash: if path_end(text) < target_end(text) {
            text.subrange(path_end(text) + 1, target_end(text))
        } else {
            Seq::empty()
        },
    }
}

/// The word boundaries of a trigger text lie inside it, in order.
pub proof fn lemma_remote_bounds(text: Seq<char>)
    ensures
        0 <= repo_end(text) <= target_start(text) <= path_end(text) <= target_end(text)
            <= text.len(),
{
    lemma_first_match(text, 0, whitespace());
    lemma_first_match(text, repo_end(text), non_whitespace());
    lemma_first_match(text, target_start(text), whitespace());
    lemma_first_match(text.subrange(0, target_end(text)), target_start(text), exactly('#'));
}

/// The characters of the opening keyword.
pub fn opening_keyword_chars() -> (r: Vec<char>)
    ensures
        r@ == opening_keyword(),
{
    let r = chars_of("ifchange");
    proof {
        reveal_strlit("ifchange");
        assert(r@ =~= opening_keyword());
    }
    r
}

/// The characters of the closing keyword.
pub fn closing_keyword_chars() -> (r: Vec<char>)
    ensures
        r@ == closing_keyword(),
{
    let r = chars_of("thenchange");
    proof {
        reveal_strlit("thenchange");
        assert(r@ =~= closing_keyword());
    }
    r
}

/// Tests whether `keyword` stands at index `at` of `line`.
pub fn has_keyword_at(line: &Vec<char>, at: usize, keyword: &Vec<char>) -> (r: bool)
    requires
        at <= line.len(),
    ensures
        r == keyword_at(line@, at as int, keyword@),
{
    if keyword.len() > line.len() - at {
        return false;
    }
    let ghost window = line@.subrange(at as int, at + keyword.len());
    let mut i: usize = 0;
    while i < keyword.len()
        invariant
            i <= keyword.len(),
            at + keyword.len() <= line.len(),
            window == line@.subrange(at as int, at + keyword.len()),
            forall|j: int| 0 <= j < i ==> ascii_lower(#[trigger] window[j]) == keyword@[j],
        decreases keyword.len() - i,
    {
        if to_ascii_lower(line[at + i]) != keyword[i] {
            assert(window[i as int] == line@[at + i]);
            assert(lowered(window)[i as int] != keyword@[i as int]);
            return false;
        }
        assert(window[i as int] == line@[at + i]);
        i += 1;
    }
    assert(lowered(window) =~= keyword@);
    true
}

/// If `line` is a marker with `keyword`, the index where its trigger text
/// starts.
pub fn match_marker(line: &Vec<char>, keyword: &Vec<char>) -> (r: Option<usize>)
    ensures
        match r {
            Some(k) => marker_tail_start(line@, keyword@) == Some(k as int) && k <= line.len(),
            None => marker_tail_start(line@, keyword@) is None,
        },
{
    let token_at = skip_whitespace(line, 0);
    let token_end: usize = if token_at < line.len() && line.len() - token_at >= 2 && line[token_at]
        == '/' && line[token_at + 1] == '/' {
        token_at + 2
    } else if token_at < line.len() && line[token_at] == '#' {
        token_at + 1
    } else {
        return None;
    };
    let keyword_start = skip_whitespace(line, token_end);
    if !has_keyword_at(line, keyword_start, keyword) {
        return None;
    }
    let tail_start = keyword_start + keyword.len();
    if find_char(line, tail_start, '\n') == line.len() {
        Some(tail_start)
    } else {
        None
    }
}

/// The bounds of the trimmed trigger text of a marker whose tail starts at
/// `tail_start`.
pub fn trigger_bounds(line: &Vec<char>, tail_start: usize, keyword: &Vec<char>) -> (r: (
    usize,
    usize,
))
    requires
        marker_tail_start(line@, keyword@) == Some(tail_start as int),
        tail_start <= line.len(),
    ensures
        r.0 == trigger_start(line@, keyword@),
        r.1 == trigger_end(line@, keyword@),
        tail_start <= r.0 <= r.1 <= line.len(),
{
    let tail = slice_chars(line, tail_start, line.len());
    let start = skip_whitespace(&tail, 0);
    let end = trim_end(&tail);
    proof {
        lemma_trim_bounds(tail@);
    }
    (tail_start + start, tail_start + end)
}

} // verus!
