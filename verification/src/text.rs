//! Character-level string helpers with exact contracts.

use vstd::prelude::*;
use vstd::std_specs::iter::IteratorSpec;

verus! {

broadcast use vstd::string::group_string_axioms;

/// The characters of a string slice, in order.
pub fn chars_of(s: &str) -> (r: Vec<char>)
    ensures
        r@ == s@,
{
    let mut it = s.chars();
    let mut r: Vec<char> = Vec::new();
    loop
        invariant
            it.obeys_prophetic_iter_laws(),
            r.len() <= s@.len(),
            it.remaining() == s@.skip(r.len() as int),
            r@ == s@.take(r.len() as int),
        ensures
            r@ == s@,
        decreases s@.len() - r.len(),
    {
        match it.next() {
            Some(c) => {
                r.push(c);
            },
            None => {
                assert(s@.take(r.len() as int) =~= s@);
                break ;
            },
        }
    }
    r
}

/// Whether two character vectors hold the same characters.
pub fn chars_equal(a: &Vec<char>, b: &Vec<char>) -> (r: bool)
    ensures
        r == (a@ == b@),
{
    if a.len() != b.len() {
        return false;
    }
    let mut i: usize = 0;
    while i < a.len()
        invariant
            a.len() == b.len(),
            i <= a.len(),
            forall|j: int| 0 <= j < i ==> a@[j] == b@[j],
        decreases a.len() - i,
    {
        if a[i] != b[i] {
            return false;
        }
        i = i + 1;
    }
    assert(a@ =~= b@);
    true
}

/// Whether two string slices hold the same characters.
pub fn str_eq(a: &str, b: &str) -> (r: bool)
    ensures
        r == (a@ == b@),
{
    let ca = chars_of(a);
    let cb = chars_of(b);
    chars_equal(&ca, &cb)
}

/// `n` occurs in `h` starting at position `i`.
pub open spec fn occurs_at(h: Seq<char>, n: Seq<char>, i: int) -> bool {
    &&& 0 <= i
    &&& i + n.len() <= h.len()
    &&& h.subrange(i, i + n.len()) == n
}

/// `n` occurs somewhere in `h` as a contiguous run of characters.
pub open spec fn contains_seq(h: Seq<char>, n: Seq<char>) -> bool {
    exists|i: int| occurs_at(h, n, i)
}

/// `p` is a prefix of `s`.
pub open spec fn has_prefix(s: Seq<char>, p: Seq<char>) -> bool {
    occurs_at(s, p, 0)
}

/// Whether `n` occurs in `h` at position `i` (character comparison).
fn chars_occur_at(h: &Vec<char>, n: &Vec<char>, i: usize) -> (r: bool)
    requires
        i + n.len() <= h.len(),
    ensures
        r == occurs_at(h@, n@, i as int),
{
    let mut j: usize = 0;
    while j < n.len()
        invariant
            i + n.len() <= h.len(),
            j <= n.len(),
            forall|k: int| 0 <= k < j ==> h@[i + k] == n@[k],
        decreases n.len() - j,
    {
        if h[i + j] != n[j] {
            assert(h@.subrange(i as int, i + n.len())[j as int] != n@[j as int]);
            return false;
        }
        j = j + 1;
    }
    assert(h@.subrange(i as int, i + n.len()) =~= n@);
    true
}

/// Whether the characters of `n` occur contiguously in `h`.
pub fn chars_contain(h: &Vec<char>, n: &Vec<char>) -> (r: bool)
    ensures
        r == contains_seq(h@, n@),
{
    if n.len() > h.len() {
        return false;
    }
    let last: usize = h.len() - n.len();
    let mut i: usize = 0;
    loop
        invariant
            last == h.len() - n.len(),
            n.len() <= h.len(),
            i <= last,
            forall|k: int| 0 <= k < i ==> !occurs_at(h@, n@, k),
        ensures
            i == last,
            forall|k: int| 0 <= k < i ==> !occurs_at(h@, n@, k),
            !occurs_at(h@, n@, i as int),
        decreases last - i,
    {
        if chars_occur_at(h, n, i) {
            return true;
        }
        if i == last {
            break;
        }
        i = i + 1;
    }
    assert forall|k: int| !occurs_at(h@, n@, k) by {
        if 0 <= k && k + n.len() <= h.len() && k != i {
            assert(k < i);
        }
    }
    false
}

/// Whether `n` occurs in `h`, as `str::contains` with a string pattern.
pub fn str_contains(h: &str, n: &str) -> (r: bool)
    ensures
        r == contains_seq(h@, n@),
{
    let ch = chars_of(h);
    let cn = chars_of(n);
    chars_contain(&ch, &cn)
}

/// Whether `s` begins with `p`, as `str::starts_with` with a string pattern.
pub fn str_starts_with(s: &str, p: &str) -> (r: bool)
    ensures
        r == has_prefix(s@, p@),
{
    let cs = chars_of(s);
    let cp = chars_of(p);
    if cp.len() > cs.len() {
        return false;
    }
    chars_occur_at(&cs, &cp, 0)
}

/// An owned copy of a string slice.
pub fn owned(s: &str) -> (r: String)
    ensures
        r@ == s@,
{
    s.to_owned()
}

/// `a` followed by `b`, as an owned string.
pub fn joined(a: &str, b: &str) -> (r: String)
    ensures
        r@ == a@ + b@,
{
    let mut r = a.to_owned();
    r.append(b);
    r
}

/// ASCII lowercase of one character: `A`..`Z` become `a`..`z`, all others stay.
pub open spec fn ascii_lower_char(c: char) -> char {
    if 'A' <= c && c <= 'Z' {
        ((c as int) + 32) as char
    } else {
        c
    }
}

/// Every character is ASCII.
pub open spec fn all_ascii(s: Seq<char>) -> bool {
    forall|i: int| 0 <= i < s.len() ==> (s[i] as int) < 128
}

/// What `str::to_lowercase` returns for a string with the given characters:
/// the Unicode `Lowercase` mapping applied character by character.
pub uninterp spec fn unicode_lowercase(s: Seq<char>) -> Seq<char>;

/// Calls `str::to_lowercase`. Claimed of it: the result is the Unicode
/// lowercase mapping of the input, a function of its characters alone, and
/// on an all-ASCII input it lowers `A`..`Z` and leaves every other
/// character as it is.
#[verifier::external_body]
pub(crate) fn to_lowercase(s: &str) -> (r: String)
    ensures
        r@ == unicode_lowercase(s@),
        all_ascii(s@) ==> r@ == s@.map_values(|c: char| ascii_lower_char(c)),
{
    s.to_lowercase()
}

} // verus!
