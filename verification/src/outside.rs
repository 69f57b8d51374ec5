//! The calls into other crates. Verus takes the contracts of this file on
//! trust: nothing here is proved.

use vstd::prelude::*;

verus! {

/// The SHA-256 digest of the UTF-8 bytes of `data`, in lower-case hexadecimal
/// digits.
pub uninterp spec fn sha256_hex_of(data: Seq<char>) -> Seq<char>;

/// Calls `sha2::Sha256` (`new`, `update`, `finalize`) on the bytes of `data`
/// and formats the digest with `{:x}`. The contract claims that the result
/// is a function of `data` alone and that it has 64 characters: the digest
/// has 32 bytes, and each is printed as two digits.
#[verifier::external_body]
pub(crate) fn sha256_hex(data: &str) -> (r: String)
    ensures
        r@ == sha256_hex_of(data@),
        r@.len() == 64,
{
    let mut hasher = <sha2::Sha256 as sha2::Digest>::new();
    sha2::Digest::update(&mut hasher, data);
    format!("{:x}", sha2::Digest::finalize(hasher))
}

/// What the regular expression `pattern` captures in `text`: for the
/// leftmost match, the byte offsets at which the capture group `group`
/// starts and ends, and the text it holds. Group 0 is the whole match.
/// `None` where nothing matches, where the group took no part in the match,
/// and where `pattern` is no regular expression.
pub uninterp spec fn regex_capture_of(pattern: Seq<char>, text: Seq<char>, group: nat) -> Option<
    (nat, nat, Seq<char>),
>;

/// What a capture group of a regular expression matched: the byte offsets at
/// which it starts and ends, and the text between them.
#[derive(Debug)]
pub struct Capture {
    pub start: usize,
    pub end: usize,
    pub text: String,
}

impl View for Capture {
    type V = (nat, nat, Seq<char>);

    open spec fn view(&self) -> (nat, nat, Seq<char>) {
        (self.start as nat, self.end as nat, self.text@)
    }
}

/// The view of an optional capture.
pub open spec fn capture_view(capture: Option<Capture>) -> Option<(nat, nat, Seq<char>)> {
    match capture {
        Some(c) => Some(c@),
        None => None,
    }
}

/// Calls `regex::Regex::new` on `pattern`, `Regex::captures` on `text` and
/// `Captures::get` on `group`, and hands out the `start`, `end` and `as_str`
/// of the match. The contract claims only that the result is a function of
/// the three arguments.
#[verifier::external_body]
pub(crate) fn regex_capture(pattern: &str, text: &str, group: usize) -> (r: Option<Capture>)
    ensures
        capture_view(r) == regex_capture_of(pattern@, text@, group as nat),
{
    let re = regex::Regex::new(pattern).ok()?;
    let m = re.captures(text)?.get(group)?;
    Some(Capture { start: m.start(), end: m.end(), text: m.as_str().to_string() })
}

/// Whether the glob pattern `glob` matches the whole of `path`, with the
/// separators of paths that the platform has for which the library was
/// built.
pub uninterp spec fn glob_matches(glob: Seq<char>, path: Seq<char>) -> bool;

/// Calls `glob_match::glob_match`. The contract claims only that the result
/// is a function of the two arguments.
#[verifier::external_body]
pub(crate) fn glob_match(glob: &str, path: &str) -> (r: bool)
    ensures
        r == glob_matches(glob@, path@),
{
    glob_match::glob_match(glob, path)
}

/// The text as `{:?}` prints it: between double quotes, with the characters
/// escaped that need it.
pub uninterp spec fn debug_quoted_of(text: Seq<char>) -> Seq<char>;

/// Formats `text` with `{:?}`, that is, with the `Debug` of `str`. The
/// contract claims only that the result is a function of `text`.
#[verifier::external_body]
pub(crate) fn debug_quoted(text: &str) -> (r: String)
    ensures
        r@ == debug_quoted_of(text@),
{
    format!("{:?}", text)
}

} // verus!
