//! Character-level helpers shared by the scanners: whitespace classes,
//! forward and backward scans, trimming and decimal formatting.

use vstd::prelude::*;
use vstd::string::*;

verus! {

/// The views of the texts.
pub open spec fn texts(s: Seq<String>) -> Seq<Seq<char>> {
    s.map_values(|t: String| t@)
}

/// The characters with the Unicode `White_Space` property.
pub open spec fn is_whitespace(c: char) -> bool {
    let n = c as u32;
    ||| 0x09 <= n <= 0x0D
    ||| n == 0x20
    ||| n == 0x85
    ||| n == 0xA0
    ||| n == 0x1680
    ||| 0x2000 <= n <= 0x200A
    ||| n == 0x2028
    ||| n == 0x2029
    ||| n == 0x202F
    ||| n == 0x205F
    ||| n == 0x3000
}

/// Predicate selecting whitespace characters.
pub open spec fn whitespace() -> spec_fn(char) -> bool {
    |c: char| is_whitespace(c)
}

/// Predicate selecting every character that is not whitespace.
pub open spec fn non_whitespace() -> spec_fn(char) -> bool {
    |c: char| !is_whitespace(c)
}

/// Predicate selecting exactly the character `x`.
pub open spec fn exactly(x: char) -> spec_fn(char) -> bool {
    |c: char| c == x
}

/// The first index at or after `from` whose character satisfies `p`, or the
/// length of `s` when there is none.
pub open spec fn first_match(s: Seq<char>, from: int, p: spec_fn(char) -> bool) -> int
    decreases s.len() - from,
{
    if 0 <= from < s.len() && !p(s[from]) {
        first_match(s, from + 1, p)
    } else {
        from
    }
}

/// One past the last index below `to` whose character satisfies `p`, or `0`
/// when there is none.
pub open spec fn last_match_end(s: Seq<char>, to: int, p: spec_fn(char) -> bool) -> int
    decreases to,
{
    if 0 < to <= s.len() && !p(s[to - 1]) {
        last_match_end(s, to - 1, p)
    } else {
        to
    }
}

/// `r` is the first match at or after `from` exactly when nothing before it
/// matches and it is either the end or a match.
pub proof fn lemma_first_match_is(s: Seq<char>, from: int, p: spec_fn(char) -> bool, r: int)
    requires
        0 <= from <= r <= s.len(),
        forall|j: int| from <= j < r ==> !p(#[trigger] s[j]),
        r == s.len() || p(s[r]),
    ensures
        first_match(s, from, p) == r,
    decreases r - from,
{
    if from < r {
        lemma_first_match_is(s, from + 1, p, r);
    }
}

/// What holds of the first match.
pub proof fn lemma_first_match(s: Seq<char>, from: int, p: spec_fn(char) -> bool)
    requires
        0 <= from <= s.len(),
    ensures
        from <= first_match(s, from, p) <= s.len(),
        forall|j: int| from <= j < first_match(s, from, p) ==> !p(#[trigger] s[j]),
        first_match(s, from, p) == s.len() || p(s[first_match(s, from, p)]),
    decreases s.len() - from,
{
    if from < s.len() && !p(s[from]) {
        lemma_first_match(s, from + 1, p);
    }
}

/// Two texts that agree up to `upto` have the same first match, where one of
/// them has it before `upto`.
pub proof fn lemma_first_match_agrees(
    s: Seq<char>,
    t: Seq<char>,
    from: int,
    p: spec_fn(char) -> bool,
    upto: int,
)
    requires
        0 <= from <= upto <= s.len(),
        upto <= t.len(),
        forall|j: int| from <= j < upto ==> s[j] == t[j],
        first_match(s, from, p) < upto,
    ensures
        first_match(t, from, p) == first_match(s, from, p),
{
    lemma_first_match(s, from, p);
    lemma_first_match_is(t, from, p, first_match(s, from, p));
}

/// `r` is the end of the last match below `to` exactly when nothing from it
/// up to `to` matches and it is either `0` or preceded by a match.
pub proof fn lemma_last_match_end_is(s: Seq<char>, to: int, p: spec_fn(char) -> bool, r: int)
    requires
        0 <= r <= to <= s.len(),
        forall|j: int| r <= j < to ==> !p(#[trigger] s[j]),
        r == 0 || p(s[r - 1]),
    ensures
        last_match_end(s, to, p) == r,
    decreases to - r,
{
    if r < to {
        lemma_last_match_end_is(s, to - 1, p, r);
    }
}

/// What holds of the end of the last match.
pub proof fn lemma_last_match_end(s: Seq<char>, to: int, p: spec_fn(char) -> bool)
    requires
        0 <= to <= s.len(),
    ensures
        0 <= last_match_end(s, to, p) <= to,
        forall|j: int| last_match_end(s, to, p) <= j < to ==> !p(#[trigger] s[j]),
        last_match_end(s, to, p) == 0 || p(s[last_match_end(s, to, p) - 1]),
    decreases to,
{
    if 0 < to && !p(s[to - 1]) {
        lemma_last_match_end(s, to - 1, p);
    }
}

/// Where the text of `s` starts once leading whitespace is skipped.
pub open spec fn trim_start_index(s: Seq<char>) -> int {
    first_match(s, 0, non_whitespace())
}

/// Where the text of `s` ends once trailing whitespace is dropped. Never
/// before `trim_start_index`.
pub open spec fn trim_end_index(s: Seq<char>) -> int {
    if trim_start_index(s) >= s.len() {
        trim_start_index(s)
    } else {
        last_match_end(s, s.len() as int, non_whitespace())
    }
}

/// `s` without its leading and trailing whitespace.
pub open spec fn trim(s: Seq<char>) -> Seq<char> {
    s.subrange(trim_start_index(s), trim_end_index(s))
}

/// The bounds of the trimmed text lie inside `s`, in order.
pub proof fn lemma_trim_bounds(s: Seq<char>)
    ensures
        0 <= trim_start_index(s) <= trim_end_index(s) <= s.len(),
        trim_start_index(s) < s.len() ==> trim_start_index(s) < trim_end_index(s),
        trim(s).len() > 0 ==> !is_whitespace(trim(s)[0]) && !is_whitespace(trim(s).last()),
{
    lemma_first_match(s, 0, non_whitespace());
    lemma_last_match_end(s, s.len() as int, non_whitespace());
    let a = trim_start_index(s);
    if a < s.len() {
        let b = last_match_end(s, s.len() as int, non_whitespace());
        assert(non_whitespace()(s[a]));
        if b <= a {
            assert(!non_whitespace()(s[a]));
        }
        assert(non_whitespace()(s[b - 1]));
    }
}

/// ASCII lower-casing of a single character.
pub open spec fn ascii_lower(c: char) -> char {
    if 'A' <= c && c <= 'Z' {
        ((c as u32) + 32) as char
    } else {
        c
    }
}

/// Tests a character for whitespace.
pub fn is_whitespace_char(c: char) -> (r: bool)
    ensures
        r == is_whitespace(c),
{
    let n: u32 = c as u32;
    (0x09 <= n && n <= 0x0D) || n == 0x20 || n == 0x85 || n == 0xA0 || n == 0x1680 || (0x2000 <= n
        && n <= 0x200A) || n == 0x2028 || n == 0x2029 || n == 0x202F || n == 0x205F || n
        == 0x3000
}

/// Lower-cases an ASCII letter and leaves every other character alone.
pub fn to_ascii_lower(c: char) -> (r: char)
    ensures
        r == ascii_lower(c),
{
    if c >= 'A' && c <= 'Z' {
        let n: u32 = c as u32 + 32;
        n as u8 as char
    } else {
        c
    }
}

/// The characters of `s`, in order.
pub fn chars_of(s: &str) -> (v: Vec<char>)
    ensures
        v@ == s@,
{
    let mut v: Vec<char> = Vec::new();
    for c in it: s.chars()
        invariant
            v@ == it.seq().take(it.index() as int),
    {
        v.push(c);
    }
    v
}

/// Index of the first non-whitespace character at or after `from`.
pub fn skip_whitespace(s: &Vec<char>, from: usize) -> (r: usize)
    requires
        from <= s.len(),
    ensures
        r == first_match(s@, from as int, non_whitespace()),
        from <= r <= s.len(),
{
    let mut i: usize = from;
    while i < s.len() && is_whitespace_char(s[i])
        invariant
            from <= i <= s.len(),
            forall|j: int| from <= j < i ==> !non_whitespace()(#[trigger] s@[j]),
        decreases s.len() - i,
    {
        i += 1;
    }
    proof {
        lemma_first_match_is(s@, from as int, non_whitespace(), i as int);
    }
    i
}

/// Index of the first whitespace character at or after `from`.
pub fn find_whitespace(s: &Vec<char>, from: usize) -> (r: usize)
    requires
        from <= s.len(),
    ensures
        r == first_match(s@, from as int, whitespace()),
        from <= r <= s.len(),
{
    let mut i: usize = from;
    while i < s.len() && !is_whitespace_char(s[i])
        invariant
            from <= i <= s.len(),
            forall|j: int| from <= j < i ==> !whitespace()(#[trigger] s@[j]),
        decreases s.len() - i,
    {
        i += 1;
    }
    proof {
        lemma_first_match_is(s@, from as int, whitespace(), i as int);
    }
    i
}

/// Index of the first occurrence of `x` at or after `from`.
pub fn find_char(s: &Vec<char>, from: usize, x: char) -> (r: usize)
    requires
        from <= s.len(),
    ensures
        r == first_match(s@, from as int, exactly(x)),
        from <= r <= s.len(),
{
    let mut i: usize = from;
    while i < s.len() && s[i] != x
        invariant
            from <= i <= s.len(),
            forall|j: int| from <= j < i ==> !exactly(x)(#[trigger] s@[j]),
        decreases s.len() - i,
    {
        i += 1;
    }
    proof {
        lemma_first_match_is(s@, from as int, exactly(x), i as int);
    }
    i
}

/// End of the text of `s` once trailing whitespace is dropped.
pub fn trim_end(s: &Vec<char>) -> (r: usize)
    ensures
        r == trim_end_index(s@),
        r <= s.len(),
{
    let start = skip_whitespace(s, 0);
    if start >= s.len() {
        return start;
    }
    let mut i: usize = s.len();
    while i > 0 && is_whitespace_char(s[i - 1])
        invariant
            0 <= i <= s.len(),
            forall|j: int| i <= j < s.len() ==> !non_whitespace()(#[trigger] s@[j]),
        decreases i,
    {
        i -= 1;
    }
    proof {
        lemma_last_match_end_is(s@, s.len() as int, non_whitespace(), i as int);
    }
    i
}

/// Copies the characters `s[from..to)` into a fresh vector.
pub fn slice_chars(s: &Vec<char>, from: usize, to: usize) -> (r: Vec<char>)
    requires
        from <= to <= s.len(),
    ensures
        r@ == s@.subrange(from as int, to as int),
{
    let mut r: Vec<char> = Vec::new();
    let mut i: usize = from;
    while i < to
        invariant
            from <= i <= to <= s.len(),
            r@ == s@.subrange(from as int, i as int),
        decreases to - i,
    {
        r.push(s[i]);
        i += 1;
    }
    r
}

/// The character of the decimal digit `d`.
pub open spec fn digit_char(d: nat) -> char {
    if d == 0 {
        '0'
    } else if d == 1 {
        '1'
    } else if d == 2 {
        '2'
    } else if d == 3 {
        '3'
    } else if d == 4 {
        '4'
    } else if d == 5 {
        '5'
    } else if d == 6 {
        '6'
    } else if d == 7 {
        '7'
    } else if d == 8 {
        '8'
    } else {
        '9'
    }
}

/// The decimal digits of `n`, without leading zeros.
pub open spec fn decimal_of(n: nat) -> Seq<char>
    decreases n,
{
    if n < 10 {
        seq![digit_char(n)]
    } else {
        decimal_of(n / 10).push(digit_char(n % 10))
    }
}

/// The text of one decimal digit.
fn digit_text(d: u64) -> (r: &'static str)
    requires
        d < 10,
    ensures
        r@ == seq![digit_char(d as nat)],
{
    proof {
        reveal_strlit("0");
        reveal_strlit("1");
        reveal_strlit("2");
        reveal_strlit("3");
        reveal_strlit("4");
        reveal_strlit("5");
        reveal_strlit("6");
        reveal_strlit("7");
        reveal_strlit("8");
        reveal_strlit("9");
    }
    let r = if d == 0 {
        "0"
    } else if d == 1 {
        "1"
    } else if d == 2 {
        "2"
    } else if d == 3 {
        "3"
    } else if d == 4 {
        "4"
    } else if d == 5 {
        "5"
    } else if d == 6 {
        "6"
    } else if d == 7 {
        "7"
    } else if d == 8 {
        "8"
    } else {
        "9"
    };
    assert(r@ =~= seq![digit_char(d as nat)]);
    r
}

/// Writes `n` in decimal digits.
pub fn decimal(n: u64) -> (r: String)
    ensures
        r@ == decimal_of(n as nat),
{
    let mut rest: u64 = n / 10;
    let mut out: String = digit_text(n % 10).to_owned();
    while rest > 0
        invariant
            decimal_of(n as nat) == (if rest == 0 {
                out@
            } else {
                decimal_of(rest as nat) + out@
            }),
        decreases rest,
    {
        let mut next: String = digit_text(rest % 10).to_owned();
        next.append(out.as_str());
        proof {
            let d = seq![digit_char((rest % 10) as nat)];
            assert(next@ =~= d + out@);
            if rest >= 10 {
                assert(decimal_of(rest as nat) + out@ =~= decimal_of((rest / 10) as nat) + next@);
            } else {
                assert(decimal_of(rest as nat) + out@ =~= next@);
            }
        }
        out = next;
        rest = rest / 10;
    }
    out
}

/// Whether `needle` occurs in `haystack`.
pub open spec fn contains_text(haystack: Seq<char>, needle: Seq<char>) -> bool {
    exists|i: int|
        0 <= i && i + needle.len() <= haystack.len() && #[trigger] haystack.subrange(
            i,
            i + needle.len(),
        ) == needle
}

/// Whether `needle` stands at index `at` of `haystack`.
fn occurs_at(haystack: &Vec<char>, needle: &Vec<char>, at: usize) -> (r: bool)
    requires
        at + needle.len() <= haystack.len(),
    ensures
        r == (haystack@.subrange(at as int, at + needle.len()) == needle@),
{
    let ghost window = haystack@.subrange(at as int, at + needle.len());
    let mut j: usize = 0;
    while j < needle.len()
        invariant
            j <= needle.len(),
            at + needle.len() <= haystack.len(),
            window == haystack@.subrange(at as int, at + needle.len()),
            forall|k: int| 0 <= k < j ==> window[k] == needle@[k],
        decreases needle.len() - j,
    {
        if haystack[at + j] != needle[j] {
            assert(window[j as int] != needle@[j as int]);
            return false;
        }
        j += 1;
    }
    assert(window =~= needle@);
    true
}

/// Searches `haystack` for `needle`.
pub fn text_contains(haystack: &str, needle: &str) -> (r: bool)
    ensures
        r == contains_text(haystack@, needle@),
{
    let h = chars_of(haystack);
    let n = chars_of(needle);
    if n.len() > h.len() {
        return false;
    }
    let last: usize = h.len() - n.len();
    let mut i: usize = 0;
    while i < last
        invariant
            i <= last,
            last == h.len() - n.len(),
            h@ == haystack@,
            n@ == needle@,
            forall|k: int| 0 <= k < i ==> #[trigger] h@.subrange(k, k + n@.len()) != n@,
        decreases last - i,
    {
        if occurs_at(&h, &n, i) {
            assert(h@.subrange(i as int, i + n@.len()) == n@);
            return true;
        }
        i += 1;
    }
    let r = occurs_at(&h, &n, last);
    assert(r ==> h@.subrange(last as int, last + n@.len()) == n@);
    r
}

/// The two texts, one behind the other.
pub fn concat(a: &str, b: &str) -> (r: String)
    ensures
        r@ == a@ + b@,
{
    let mut r = a.to_owned();
    r.append(b);
    assert(r@ =~= a@ + b@);
    r
}

/// Tests whether `text` starts with `prefix`.
pub fn starts_with(text: &str, prefix: &str) -> (r: bool)
    ensures
        r == prefix@.is_prefix_of(text@),
{
    let t = chars_of(text);
    let p = chars_of(prefix);
    if p.len() > t.len() {
        return false;
    }
    let mut i: usize = 0;
    while i < p.len()
        invariant
            i <= p.len() <= t.len(),
            t@ == text@,
            p@ == prefix@,
            forall|j: int| 0 <= j < i ==> t@[j] == p@[j],
        decreases p.len() - i,
    {
        if t[i] != p[i] {
            assert(t@.subrange(0, p@.len() as int)[i as int] != p@[i as int]);
            return false;
        }
        i += 1;
    }
    assert(p@ =~= t@.subrange(0, p@.len() as int));
    true
}

/// The three texts, one behind the other.
pub fn concat3(a: &str, b: &str, c: &str) -> (r: String)
    ensures
        r@ == a@ + b@ + c@,
{
    let mut r = concat(a, b);
    r.append(c);
    r
}

/// The four texts, one behind the other.
pub fn concat4(a: &str, b: &str, c: &str, d: &str) -> (r: String)
    ensures
        r@ == a@ + b@ + c@ + d@,
{
    let mut r = concat3(a, b, c);
    r.append(d);
    r
}

/// The five texts, one behind the other.
pub fn concat5(a: &str, b: &str, c: &str, d: &str, e: &str) -> (r: String)
    ensures
        r@ == a@ + b@ + c@ + d@ + e@,
{
    let mut r = concat4(a, b, c, d);
    r.append(e);
    r
}

/// The owned text `s[from..to)`.
pub fn substring(s: &str, from: usize, to: usize) -> (r: String)
    requires
        from <= to <= s@.len(),
    ensures
        r@ == s@.subrange(from as int, to as int),
{
    s.substring_char(from, to).to_owned()
}

/// The text `s[from..to)` without its leading and trailing whitespace.
pub fn trimmed_range(s: &str, from: usize, to: usize) -> (r: String)
    requires
        from <= to <= s@.len(),
    ensures
        r@ == trim(s@.subrange(from as int, to as int)),
{
    let chars = chars_of(s);
    let part = slice_chars(&chars, from, to);
    let start = skip_whitespace(&part, 0);
    let end = trim_end(&part);
    proof {
        lemma_trim_bounds(part@);
        assert(s@.subrange(from + start, from + end) =~= part@.subrange(start as int, end as int));
    }
    substring(s, from + start, from + end)
}

} // verus!
