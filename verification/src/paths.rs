//! Paths as the rules compare them: by their components, with `/` between
//! them. Repeated separators, a separator at the end and components `.`
//! behind the start make no difference.

use crate::text::{chars_of, exactly, find_char, first_match, substring, texts};
use vstd::hash_map::StringHashMap;
use vstd::prelude::*;
use vstd::string::*;

verus! {

/// Whether the path starts at the root.
pub open spec fn is_rooted(path: Seq<char>) -> bool {
    path.len() > 0 && path[0] == '/'
}

/// Whether the text from `from` up to `end` is a component of the path that
/// counts: it is not empty, and it is not `.` unless the path starts with
/// it.
pub open spec fn is_component(path: Seq<char>, from: int, end: int) -> bool {
    from < end && !(from != 0 && end == from + 1 && path[from] == '.')
}

/// The components of the path from index `from` on, each with a `/` behind
/// it.
pub open spec fn components_from(path: Seq<char>, from: int) -> Seq<char>
    decreases path.len() - from,
{
    if from < 0 || from >= path.len() {
        Seq::empty()
    } else {
        let end = first_match(path, from, exactly('/'));
        if end < from || end > path.len() {
            Seq::empty()
        } else {
            let rest = if end < path.len() {
                components_from(path, end + 1)
            } else {
                Seq::empty()
            };
            if is_component(path, from, end) {
                path.subrange(from, end) + seq!['/'] + rest
            } else {
                rest
            }
        }
    }
}

/// The normal form of a path: a `/` where it starts at the root, then each
/// of its components with a `/` behind it. Two paths have the same
/// components exactly when they have the same normal form.
pub open spec fn path_key_of(path: Seq<char>) -> Seq<char> {
    (if is_rooted(path) {
        seq!['/']
    } else {
        Seq::empty()
    }) + components_from(path, 0)
}

/// Whether two paths have the same components.
pub open spec fn same_path(a: Seq<char>, b: Seq<char>) -> bool {
    path_key_of(a) == path_key_of(b)
}

/// Writes a path in its normal form.
pub fn path_key(path: &str) -> (r: String)
    ensures
        r@ == path_key_of(path@),
{
    let chars = chars_of(path);
    let mut out = String::new();
    if chars.len() > 0 && chars[0] == '/' {
        out.append("/");
        proof {
            reveal_strlit("/");
            assert(out@ =~= seq!['/']);
        }
    }
    let mut i: usize = 0;
    assert(out@ + components_from(path@, 0) =~= path_key_of(path@));
    while i < chars.len()
        invariant
            i <= chars.len(),
            chars@ == path@,
            path_key_of(path@) == out@ + components_from(path@, i as int),
        decreases chars.len() - i,
    {
        let end = find_char(&chars, i, '/');
        let ghost before = out@;
        if i < end && !(i != 0 && end == i + 1 && chars[i] == '.') {
            out.append(substring(path, i, end).as_str());
            out.append("/");
            proof {
                reveal_strlit("/");
                assert(out@ =~= before + (path@.subrange(i as int, end as int) + seq!['/']));
            }
        }
        proof {
            let rest = if end < chars.len() {
                components_from(path@, end + 1)
            } else {
                Seq::empty()
            };
            assert(out@ + rest =~= before + components_from(path@, i as int));
        }
        i = if end < chars.len() {
            end + 1
        } else {
            end
        };
    }
    assert(out@ + components_from(path@, i as int) =~= out@);
    out
}

/// Whether no earlier path of the list has the components of the path with
/// index `i`.
pub open spec fn is_first_occurrence(paths: Seq<Seq<char>>, i: int) -> bool {
    forall|j: int| 0 <= j < i ==> !same_path(#[trigger] paths[j], paths[i])
}

/// The first `n` paths without those that repeat an earlier one.
pub open spec fn distinct_paths(paths: Seq<Seq<char>>, n: nat) -> Seq<Seq<char>>
    decreases n,
{
    if n == 0 || n > paths.len() {
        Seq::empty()
    } else if is_first_occurrence(paths, n - 1) {
        distinct_paths(paths, (n - 1) as nat).push(paths[n - 1])
    } else {
        distinct_paths(paths, (n - 1) as nat)
    }
}

/// Drops every path that repeats an earlier one, so that each file is
/// looked at once. The paths that stay keep their order and their text.
pub fn dedup_paths(paths: &Vec<String>) -> (r: Vec<String>)
    ensures
        texts(r@) == distinct_paths(texts(paths@), paths.len() as nat),
{
    let mut ret: Vec<String> = Vec::new();
    let mut seen: StringHashMap<bool> = StringHashMap::new();
    let ghost all = texts(paths@);
    let mut i: usize = 0;
    assert(texts(ret@) =~= distinct_paths(all, 0));
    while i < paths.len()
        invariant
            i <= paths.len(),
            all == texts(paths@),
            texts(ret@) == distinct_paths(all, i as nat),
            forall|k: Seq<char>| #[trigger]
                seen@.contains_key(k) <==> exists|j: int|
                    0 <= j < i && path_key_of(#[trigger] all[j]) == k,
        decreases paths.len() - i,
    {
        let path = &paths[i];
        assert(all[i as int] == path@);
        let key = path_key(path.as_str());
        let ghost seen_before = seen@;
        if !seen.contains_key(key.as_str()) {
            assert(is_first_occurrence(all, i as int)) by {
                assert forall|j: int| 0 <= j < i implies !same_path(#[trigger] all[j], all[i as int]) by {
                    if same_path(all[j], all[i as int]) {
                        assert(seen_before.contains_key(key@));
                    }
                }
            }
            let copy = path.clone();
            assert(texts(ret@.push(copy)) =~= texts(ret@).push(copy@));
            ret.push(copy);
            seen.insert(key, true);
        } else {
            assert(!is_first_occurrence(all, i as int)) by {
                let j = choose|j: int| 0 <= j < i && path_key_of(#[trigger] all[j]) == key@;
                assert(same_path(all[j], all[i as int]));
            }
        }
        proof {
            assert forall|k: Seq<char>| #[trigger]
                seen@.contains_key(k) <==> exists|j: int|
                    0 <= j < i + 1 && path_key_of(#[trigger] all[j]) == k by {
                if seen@.contains_key(k) {
                    if seen_before.contains_key(k) {
                        let j = choose|j: int| 0 <= j < i && path_key_of(#[trigger] all[j]) == k;
                        assert(0 <= j < i + 1 && path_key_of(all[j]) == k);
                    } else {
                        assert(path_key_of(all[i as int]) == k);
                    }
                }
                if exists|j: int| 0 <= j < i + 1 && path_key_of(#[trigger] all[j]) == k {
                    let j = choose|j: int| 0 <= j < i + 1 && path_key_of(#[trigger] all[j]) == k;
                    if j < i {
                        assert(seen_before.contains_key(k));
                    }
                }
            }
        }
        i += 1;
    }
    ret
}

} // verus!
