//! References to files of other repositories: how a trigger text names one,
//! where its clone is kept, and the edit that records a lock hash.

use crate::diagnostic::{Position, Range, Replacement, ReplacementView};
use crate::outside::{regex_capture, regex_capture_of, sha256_hex, sha256_hex_of};
use crate::rules::if_change_then_change::{
    IctcBlock, RemoteLocation, RemoteLocationView, TextBlock, TextBlockView,
};
use crate::rules::markers::{
    has_whitespace, is_opening_marker, lemma_remote_bounds, match_marker, opening_keyword,
    opening_keyword_chars, path_end, remote_parts, repo_end, target_end, target_start,
    trigger_bounds, trigger_end, trigger_start, trigger_text,
};
use crate::run::Run;
use crate::text::{
    chars_of, concat, contains_text, find_char, find_whitespace, skip_whitespace, slice_chars,
    substring, text_contains,
};
use vstd::prelude::*;
use vstd::string::*;

verus! {

/// The remote location that the opening marker `line` of line `line_no`
/// names. Positions count characters from the start of the line.
pub open spec fn remote_location_of(line: Seq<char>, line_no: u64) -> RemoteLocationView {
    let text = trigger_text(line, opening_keyword());
    let parts = remote_parts(text);
    RemoteLocationView {
        repo: parts.repo,
        path: parts.path,
        lock_hash: parts.lock_hash,
        block: TextBlockView {
            location: Range {
                start: Position {
                    line: line_no,
                    character: trigger_start(line, opening_keyword()) as u64,
                },
                end: Position {
                    line: line_no,
                    character: trigger_end(line, opening_keyword()) as u64,
                },
            },
            text,
        },
    }
}

impl RemoteLocation {
    /// Reads the remote location that the opening marker `line` names. The
    /// line must be an opening marker whose trigger text has at least two
    /// words, and `block` must know its first line.
    pub fn new(line: &str, block: &IctcBlock) -> (r: Self)
        requires
            is_opening_marker(line@),
            has_whitespace(trigger_text(line@, opening_keyword())),
            block.begin is Some,
        ensures
            r@ == remote_location_of(line@, block.begin->0),
            r@.wf(),
    {
        let chars = chars_of(line);
        let keyword = opening_keyword_chars();
        let tail_start = match match_marker(&chars, &keyword) {
            Some(k) => k,
            None => 0,
        };
        let bounds = trigger_bounds(&chars, tail_start, &keyword);
        let start = bounds.0;
        let end = bounds.1;
        let text = slice_chars(&chars, start, end);
        proof {
            lemma_remote_bounds(text@);
        }
        let repo_to = find_whitespace(&text, 0);
        let target_from = skip_whitespace(&text, repo_to);
        let target_to = find_whitespace(&text, target_from);
        let target = slice_chars(&text, 0, target_to);
        let path_to = find_char(&target, target_from, '#');
        let line_no = block.begin.unwrap();
        let lock_hash = if path_to < target_to {
            substring(line, start + path_to + 1, start + target_to)
        } else {
            String::new()
        };
        let r = RemoteLocation {
            repo: substring(line, start, start + repo_to),
            path: substring(line, start + target_from, start + path_to),
            lock_hash,
            block: TextBlock {
                location: Range {
                    start: Position { line: line_no, character: start as u64 },
                    end: Position { line: line_no, character: end as u64 },
                },
                text: substring(line, start, end),
            },
        };
        proof {
            let t = trigger_text(line@, opening_keyword());
            assert(text@ == t);
            assert(r.repo@ =~= t.subrange(0, repo_end(t)));
            assert(r.path@ =~= t.subrange(target_start(t), path_end(t)));
            if path_to < target_to {
                assert(r.lock_hash@ =~= t.subrange(path_end(t) + 1, target_end(t)));
            }
            assert(r.block.text@ =~= t);
        }
        r
    }
}

/// The number of characters of a commit hash that lock hashes record.
pub const SHORT_HASH_LEN: usize = 10;

/// The first ten characters of a commit hash, or all of it where it is
/// shorter.
pub open spec fn short_hash_of(hash: Seq<char>) -> Seq<char> {
    if hash.len() <= 10 {
        hash
    } else {
        hash.subrange(0, 10)
    }
}

/// Shortens a commit hash to the length that lock hashes record.
pub fn short_hash(hash: &str) -> (r: String)
    ensures
        r@ == short_hash_of(hash@),
{
    let n = hash.unicode_len();
    if n <= SHORT_HASH_LEN {
        hash.to_owned()
    } else {
        substring(hash, 0, SHORT_HASH_LEN)
    }
}

/// The expression that recognises the address of a repository on GitHub and
/// captures the repository's name.
pub const GITHUB_PATTERN: &'static str = "^git@github\\.com:[\\w\\.-]+/(?P<name>[\\w\\.-]+)\\.git$";

/// The name of the repository at `repo_url`, where the address names GitHub
/// and has the shape of a GitHub address.
pub open spec fn repo_name_of(repo_url: Seq<char>) -> Option<Seq<char>> {
    if contains_text(repo_url, "github.com"@) {
        match regex_capture_of(GITHUB_PATTERN@, repo_url, 1) {
            Some(m) => Some(m.2),
            None => None,
        }
    } else {
        None
    }
}

/// The first 32 characters of the text, or all of it where it is shorter.
pub open spec fn hash_prefix_of(hex: Seq<char>) -> Seq<char> {
    if hex.len() <= 32 {
        hex
    } else {
        hex.subrange(0, 32)
    }
}

/// The name of the directory that caches a repository, from the
/// repository's name, where it has one, and the hash of its address.
pub open spec fn dir_name_of(name: Option<Seq<char>>, hash: Seq<char>) -> Seq<char> {
    match name {
        Some(n) => n + seq!['-'] + hash,
        None => hash,
    }
}

/// The edit that records `new_hash` as the lock hash of `remote`. Where the
/// reference has no lock hash, `#` and the hash are inserted at the end of
/// the trigger text; else the characters of the old lock hash, taken to be
/// the last of the trigger text, are replaced by the new hash.
pub open spec fn replacement_for_hash(remote: RemoteLocationView, new_hash: Seq<char>)
    -> ReplacementView {
    let line = remote.block.location.start.line;
    let end = remote.block.location.end.character;
    if remote.lock_hash.len() == 0 {
        ReplacementView {
            deleted_region: Range {
                start: Position { line, character: end },
                end: Position { line, character: end },
            },
            inserted_content: seq!['#'] + new_hash,
        }
    } else {
        ReplacementView {
            deleted_region: Range {
                start: Position { line, character: (end - remote.lock_hash.len()) as u64 },
                end: Position { line, character: end },
            },
            inserted_content: new_hash,
        }
    }
}

impl RemoteLocationView {
    /// The lock hash is no longer than the trigger text reaches into its
    /// line.
    pub open spec fn wf(self) -> bool {
        self.lock_hash.len() <= self.block.location.end.character
    }
}

/// Where the default location of the cache is looked for, and what was found
/// there.
#[derive(Debug)]
pub struct CacheRoots {
    /// Whether the configured cache directory exists
    pub configured_exists: bool,
    /// The system's directory for temporary files
    pub temp_dir: String,
    /// Whether that directory exists
    pub temp_dir_exists: bool,
    /// The current directory
    pub current_dir: String,
}

/// The directory that holds the clones: the configured one where it exists,
/// else the directory for temporary files where that exists, else the
/// current directory.
pub open spec fn cache_root_of(configured: Seq<char>, roots: CacheRoots) -> Seq<char> {
    if roots.configured_exists {
        configured
    } else if roots.temp_dir_exists {
        roots.temp_dir@
    } else {
        roots.current_dir@
    }
}

/// The place of a clone: a directory name below a cache directory.
#[derive(Debug)]
pub struct LocalDir {
    pub root: String,
    pub name: String,
}

impl RemoteLocation {
    /// The name of the repository, where its address has the shape of a
    /// GitHub address.
    pub fn extract_repo_name(repo_url: &str) -> (r: Option<String>)
        ensures
            (match r {
                Some(n) => Some(n@),
                None => None,
            }) == repo_name_of(repo_url@),
    {
        if !text_contains(repo_url, "github.com") {
            return None;
        }
        match regex_capture(GITHUB_PATTERN, repo_url, 1) {
            Some(m) => Some(m.text),
            None => None,
        }
    }

    /// The first 32 characters of a digest in hexadecimal digits.
    pub fn hash_prefix(hex: &str) -> (r: String)
        ensures
            r@ == hash_prefix_of(hex@),
    {
        if hex.unicode_len() <= 32 {
            hex.to_owned()
        } else {
            substring(hex, 0, 32)
        }
    }

    /// The identity of the repository: the first 32 hexadecimal digits of
    /// the SHA-256 digest of its address.
    pub fn repo_hash(&self) -> (r: String)
        ensures
            r@ == hash_prefix_of(sha256_hex_of(self.repo@)),
            r@.len() == 32,
    {
        let hex = sha256_hex(self.repo.as_str());
        Self::hash_prefix(hex.as_str())
    }

    /// Joins a repository's name, where it has one, and its hash to the name
    /// of its cache directory.
    pub fn dir_name_from(name: &Option<String>, hash: &str) -> (r: String)
        ensures
            r@ == dir_name_of(
                match name {
                    Some(n) => Some(n@),
                    None => None,
                },
                hash@,
            ),
    {
        match name {
            Some(n) => {
                let head = concat(n.as_str(), "-");
                proof {
                    reveal_strlit("-");
                    assert("-"@ =~= seq!['-']);
                }
                concat(head.as_str(), hash)
            },
            None => hash.to_owned(),
        }
    }

    /// The name of the directory that caches the repository: its hash,
    /// behind its name and a hyphen where its address gives a name.
    pub fn repo_dir_name(&self) -> (r: String)
        ensures
            r@ == dir_name_of(repo_name_of(self.repo@), hash_prefix_of(sha256_hex_of(self.repo@))),
    {
        let name = Self::extract_repo_name(self.repo.as_str());
        let hash = self.repo_hash();
        Self::dir_name_from(&name, hash.as_str())
    }

    /// Where the clone of the repository is kept: below the configured cache
    /// directory where it exists, else below the directory for temporary
    /// files, else below the current directory.
    pub fn local_dir(&self, run: &Run, roots: &CacheRoots) -> (r: LocalDir)
        ensures
            r.root@ == cache_root_of(run.cache_dir@, *roots),
            r.name@ == dir_name_of(
                repo_name_of(self.repo@),
                hash_prefix_of(sha256_hex_of(self.repo@)),
            ),
    {
        let root = if roots.configured_exists {
            run.cache_dir.clone()
        } else if roots.temp_dir_exists {
            roots.temp_dir.clone()
        } else {
            roots.current_dir.clone()
        };
        LocalDir { root, name: self.repo_dir_name() }
    }

    /// The edit that records `new_hash` as the lock hash of this reference.
    pub fn get_replacement_for_hash(&self, new_hash: &str) -> (r: Replacement)
        requires
            self@.wf(),
        ensures
            r@ == replacement_for_hash(self@, new_hash@),
    {
        let line = self.block.location.start.line;
        let end = self.block.location.end.character;
        let len = self.lock_hash.as_str().unicode_len();
        if len == 0 {
            proof {
                reveal_strlit("#");
                assert("#"@ =~= seq!['#']);
            }
            Replacement {
                deleted_region: Range {
                    start: Position { line, character: end },
                    end: Position { line, character: end },
                },
                inserted_content: concat("#", new_hash),
            }
        } else {
            Replacement {
                deleted_region: Range {
                    start: Position { line, character: end - len as u64 },
                    end: Position { line, character: end },
                },
                inserted_content: new_hash.to_owned(),
            }
        }
    }
}

} // verus!
