//! Executable text helpers, each specified against [`crate::seqs`].
//!
//! Strings are viewed as sequences of characters. The helpers read a string
//! once into a vector of characters, work with positions in that vector,
//! and cut the results out of the string they came from.

use crate::seqs::{
    contains_seq, find, join, lemma_find, lemma_first_index_unique, lemma_join_split, occurs_at,
    split,
};
use vstd::prelude::*;
use vstd::string::*;
use vstd::utf8::*;

verus! {

/// What `char::is_whitespace` answers for `c`.
pub uninterp spec fn is_whitespace(c: char) -> bool;

/// Calls `char::is_whitespace`. The answer depends on the character alone
/// (std documents it as the Unicode `White_Space` property); the contract
/// gives that answer the name [`is_whitespace`] and claims nothing else.
#[verifier::external_body]
pub(crate) fn char_is_whitespace(c: char) -> (b: bool)
    ensures
        b == is_whitespace(c),
{
    c.is_whitespace()
}

/// The characters that `char::to_uppercase` yields for `c`.
pub uninterp spec fn uppercase(c: char) -> Seq<char>;

/// Calls `char::to_uppercase` and collects what it yields. The result
/// depends on the character alone (std documents it as the upper-case
/// mapping of the Unicode character database, which may give more than one
/// character); the contract gives it the name [`uppercase`] and claims
/// nothing else.
#[verifier::external_body]
pub(crate) fn upper_text(c: char) -> (s: String)
    ensures
        s@ == uppercase(c),
{
    c.to_uppercase().collect()
}

/// Calls `core::str::from_utf8`. Trusted: the call succeeds exactly on
/// well-formed UTF-8, and the text it yields is the decoding of the bytes.
#[verifier::external_body]
pub(crate) fn utf8_text(bytes: &[u8]) -> (text: Option<&str>)
    ensures
        text is Some <==> valid_utf8(bytes@),
        text matches Some(t) ==> t@ == decode_utf8(bytes@),
{
    core::str::from_utf8(bytes).ok()
}

/// `String::push` appends one character. Trusted, as std documents it:
/// "Appends the given char to the end of this String."
pub assume_specification[ String::push ](s: &mut String, ch: char)
    ensures
        final(s)@ == old(s)@.push(ch),
;

/// The character sequences of a list of strings, in order.
pub open spec fn texts(list: Seq<String>) -> Seq<Seq<char>> {
    list.map_values(|s: String| s@)
}

/// The characters of `s`, in order.
pub fn chars_of(s: &str) -> (v: Vec<char>)
    ensures
        v@ == s@,
{
    let mut v: Vec<char> = Vec::new();
    for c in it: s.chars()
        invariant
            v@ == it.seq().take(it.index() as int),
            it.seq() == s@,
    {
        v.push(c);
    }
    v
}

/// Whether two strings hold the same characters.
pub fn same_text(a: &str, b: &str) -> (r: bool)
    ensures
        r == (a@ == b@),
{
    let x = a.to_owned();
    let y = b.to_owned();
    x == y
}

/// The part of `s` from character `from` up to character `to`, as an owned
/// string.
pub(crate) fn cut(s: &str, from: usize, to: usize) -> (r: String)
    requires
        from <= to <= s@.len(),
    ensures
        r@ == s@.subrange(from as int, to as int),
{
    s.substring_char(from, to).to_owned()
}

/// `a` followed by `b`.
pub fn glue(a: &str, b: &str) -> (r: String)
    ensures
        r@ == a@ + b@,
{
    let mut r = a.to_owned();
    r.append(b);
    r
}

/// Whether `needle` stands in `hay` at position `i`.
fn matches_at(hay: &[char], needle: &[char], i: usize) -> (r: bool)
    requires
        i + needle@.len() <= hay@.len(),
    ensures
        r == occurs_at(hay@, needle@, i as int),
{
    let n = hay.len();
    let m = needle.len();
    let mut j: usize = 0;
    while j < m
        invariant
            n == hay@.len(),
            m == needle@.len(),
            i + m <= n,
            j <= m,
            forall|k: int| 0 <= k < j ==> hay@[i + k] == needle@[k],
        decreases m - j,
    {
        if hay[i + j] != needle[j] {
            proof {
                let sub = hay@.subrange(i as int, i + m);
                assert(sub[j as int] == hay@[i + j]);
            }
            return false;
        }
        j += 1;
    }
    proof {
        assert(hay@.subrange(i as int, i + m) =~= needle@);
    }
    true
}

/// Position of the first occurrence of `needle` in `hay`.
pub fn find_in(hay: &[char], needle: &[char]) -> (r: Option<usize>)
    ensures
        match r {
            Some(i) => i as int == find(hay@, needle@),
            None => find(hay@, needle@) == -1,
        },
{
    let n = hay.len();
    let m = needle.len();
    proof {
        lemma_find(hay@, needle@);
    }
    if m > n {
        return None;
    }
    let last = n - m;
    let mut i: usize = 0;
    loop
        invariant
            n == hay@.len(),
            m == needle@.len(),
            last == n - m,
            i <= last,
            forall|j: int| 0 <= j < i ==> !occurs_at(hay@, needle@, j),
        decreases last - i,
    {
        if matches_at(hay, needle, i) {
            proof {
                lemma_find(hay@, needle@);
            }
            return Some(i);
        }
        if i == last {
            proof {
                lemma_find(hay@, needle@);
            }
            return None;
        }
        i += 1;
    }
}

/// Whether `needle` stands somewhere in `hay`.
pub fn contains_text(hay: &[char], needle: &[char]) -> (r: bool)
    ensures
        r == contains_seq(hay@, needle@),
{
    proof {
        lemma_find(hay@, needle@);
    }
    find_in(hay, needle).is_some()
}

/// Where each piece of `split(s, sep)` starts and ends in `s`.
///
/// For every piece the result also pins what follows it: the pieces from
/// `k` on, joined again, are exactly `s` from the start of piece `k`.
pub fn split_bounds(s: &[char], sep: char) -> (b: Vec<(usize, usize)>)
    ensures
        b@.len() == split(s@, sep).len(),
        forall|k: int|
            0 <= k < b@.len() ==> {
                &&& (#[trigger] b@[k]).0 <= b@[k].1 <= s@.len()
                &&& s@.subrange(b@[k].0 as int, b@[k].1 as int) == split(s@, sep)[k]
                &&& join(split(s@, sep).skip(k), sep) == s@.skip(b@[k].0 as int)
            },
{
    let n = s.len();
    let mut b: Vec<(usize, usize)> = Vec::new();
    let mut start: usize = 0;
    let mut i: usize = 0;
    let ghost done: Seq<Seq<char>> = Seq::empty();
    proof {
        assert(s@.skip(0) == s@);
        assert(done + split(s@.skip(0), sep) == split(s@, sep));
        lemma_join_split(s@, sep);
        assert(split(s@, sep).skip(0) == split(s@, sep));
    }
    while i < n
        invariant
            n == s@.len(),
            start <= i <= n,
            b@.len() == done.len(),
            split(s@, sep) == done + split(s@.skip(start as int), sep),
            forall|j: int| start <= j < i ==> s@[j] != sep,
            join(split(s@, sep).skip(done.len() as int), sep) == s@.skip(start as int),
            forall|k: int|
                0 <= k < b@.len() ==> {
                    &&& (#[trigger] b@[k]).0 <= b@[k].1 <= s@.len()
                    &&& s@.subrange(b@[k].0 as int, b@[k].1 as int) == done[k]
                    &&& join(split(s@, sep).skip(k), sep) == s@.skip(b@[k].0 as int)
                },
        decreases n - i,
    {
        if s[i] == sep {
            proof {
                let rest = s@.skip(start as int);
                let at = i - start;
                assert forall|j: int| 0 <= j < at implies rest[j] != sep by {
                    assert(rest[j] == s@[start + j]);
                }
                assert(rest[at] == sep);
                lemma_first_index_unique(rest, sep, at);
                assert(rest.take(at) == s@.subrange(start as int, i as int));
                assert(rest.skip(at + 1) == s@.skip(i + 1));
                let piece = s@.subrange(start as int, i as int);
                assert(split(rest, sep) == seq![piece] + split(s@.skip(i + 1), sep));
                assert(split(s@, sep) == (done + seq![piece]) + split(s@.skip(i + 1), sep));
                done = done + seq![piece];
                lemma_join_split(s@.skip(i + 1), sep);
                assert(split(s@, sep).skip(done.len() as int) == split(s@.skip(i + 1), sep));
            }
            b.push((start, i));
            start = i + 1;
        }
        i += 1;
    }
    proof {
        let rest = s@.skip(start as int);
        assert forall|j: int| 0 <= j < rest.len() implies rest[j] != sep by {
            assert(rest[j] == s@[start + j]);
        }
        lemma_first_index_unique(rest, sep, rest.len() as int);
        assert(split(rest, sep) == seq![rest]);
        assert(rest == s@.subrange(start as int, n as int));
    }
    b.push((start, n));
    b
}

/// Number of whitespace characters at the front of `s`.
pub open spec fn leading_blank(s: Seq<char>) -> int
    decreases s.len(),
{
    if s.len() == 0 || !is_whitespace(s[0]) {
        0
    } else {
        1 + leading_blank(s.drop_first())
    }
}

/// Number of characters at the front of `s` that are not whitespace.
pub open spec fn leading_solid(s: Seq<char>) -> int
    decreases s.len(),
{
    if s.len() == 0 || is_whitespace(s[0]) {
        0
    } else {
        1 + leading_solid(s.drop_first())
    }
}

/// `leading_solid` counts exactly the run at the front that is free of
/// whitespace.
pub proof fn lemma_leading_solid(s: Seq<char>)
    ensures
        0 <= leading_solid(s) <= s.len(),
        forall|j: int| 0 <= j < leading_solid(s) ==> !is_whitespace(s[j]),
        leading_solid(s) < s.len() ==> is_whitespace(s[leading_solid(s)]),
    decreases s.len(),
{
    if s.len() == 0 || is_whitespace(s[0]) {
    } else {
        let t = s.drop_first();
        lemma_leading_solid(t);
        assert forall|j: int| 0 <= j < leading_solid(s) implies !is_whitespace(s[j]) by {
            if j > 0 {
                assert(s[j] == t[j - 1]);
            }
        }
    }
}

/// Number of whitespace characters at the back of `s`.
pub open spec fn trailing_blank(s: Seq<char>) -> int
    decreases s.len(),
{
    if s.len() == 0 || !is_whitespace(s.last()) {
        0
    } else {
        1 + trailing_blank(s.drop_last())
    }
}

/// True when `s` holds nothing but whitespace (or nothing at all).
pub open spec fn is_blank(s: Seq<char>) -> bool {
    leading_blank(s) == s.len()
}

/// `s` without the whitespace at its two ends.
pub open spec fn trimmed(s: Seq<char>) -> Seq<char> {
    if is_blank(s) {
        Seq::empty()
    } else {
        s.subrange(leading_blank(s), s.len() - trailing_blank(s))
    }
}

/// `leading_blank` counts exactly the whitespace run at the front.
pub proof fn lemma_leading_blank(s: Seq<char>)
    ensures
        0 <= leading_blank(s) <= s.len(),
        forall|j: int| 0 <= j < leading_blank(s) ==> is_whitespace(s[j]),
        leading_blank(s) < s.len() ==> !is_whitespace(s[leading_blank(s)]),
    decreases s.len(),
{
    if s.len() == 0 || !is_whitespace(s[0]) {
    } else {
        let t = s.drop_first();
        lemma_leading_blank(t);
        assert forall|j: int| 0 <= j < leading_blank(s) implies is_whitespace(s[j]) by {
            if j > 0 {
                assert(s[j] == t[j - 1]);
            }
        }
    }
}

/// `trailing_blank` counts exactly the whitespace run at the back.
pub proof fn lemma_trailing_blank(s: Seq<char>)
    ensures
        0 <= trailing_blank(s) <= s.len(),
        forall|j: int| s.len() - trailing_blank(s) <= j < s.len() ==> is_whitespace(s[j]),
        trailing_blank(s) < s.len() ==> !is_whitespace(s[s.len() - trailing_blank(s) - 1]),
    decreases s.len(),
{
    if s.len() == 0 || !is_whitespace(s.last()) {
    } else {
        let t = s.drop_last();
        lemma_trailing_blank(t);
        assert forall|j: int| s.len() - trailing_blank(s) <= j < s.len() implies is_whitespace(
            s[j],
        ) by {
            if j < s.len() - 1 {
                assert(s[j] == t[j]);
            }
        }
    }
}

/// Where `trimmed(s)` starts and ends in `s`.
pub fn trim_bounds(s: &[char]) -> (r: (usize, usize))
    ensures
        r.0 <= r.1 <= s@.len(),
        s@.subrange(r.0 as int, r.1 as int) == trimmed(s@),
        (r.0 == r.1) == is_blank(s@),
{
    let n = s.len();
    let mut a: usize = 0;
    proof {
        lemma_leading_blank(s@);
        lemma_trailing_blank(s@);
    }
    while a < n && char_is_whitespace(s[a])
        invariant
            n == s@.len(),
            a <= n,
            forall|j: int| 0 <= j < a ==> is_whitespace(s@[j]),
        decreases n - a,
    {
        a += 1;
    }
    let ghost lead = leading_blank(s@);
    assert(a == lead) by {
        if a < lead {
        } else if lead < a {
        }
    }
    if a == n {
        assert(s@.subrange(a as int, a as int) =~= Seq::<char>::empty());
        return (a, a);
    }
    let mut e: usize = n;
    while e > a + 1 && char_is_whitespace(s[e - 1])
        invariant
            n == s@.len(),
            a < e <= n,
            !is_whitespace(s@[a as int]),
            forall|j: int| e <= j < n ==> is_whitespace(s@[j]),
        decreases e,
    {
        e -= 1;
    }
    let ghost trail = trailing_blank(s@);
    assert(n - e == trail) by {
        if n - e < trail {
            assert(is_whitespace(s@[e - 1]));
        } else if trail < n - e {
            assert(is_whitespace(s@[n - trail - 1]));
        }
    }
    (a, e)
}

} // verus!
