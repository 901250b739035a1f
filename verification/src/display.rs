//! Small pieces of text and colour that the presentation layer shows next
//! to a message or a user: the time of day of a message, the attribution of
//! a quoted message, the colour of a user's avatar, numbers in decimal.

use crate::seqs::{first_index, lemma_first_index_unique};
use crate::text::{
    char_is_whitespace, chars_of, cut, glue, is_whitespace, leading_blank, leading_solid,
    lemma_leading_blank, lemma_leading_solid, trim_bounds, trimmed, upper_text, uppercase,
};
use vstd::prelude::*;
use vstd::slice::slice_subrange;
use vstd::utf8::encode_utf8;

verus! {

/// The character for a decimal digit.
pub open spec fn digit_char(d: int) -> char {
    if d == 0 {
        '0'
    } else if d == 1 {
        '1'
    } else if d == 2 {
        '2'
    } else if d == 3 {
        '3'
    } else if d == 4 {
        '4'
    } else if d == 5 {
        '5'
    } else if d == 6 {
        '6'
    } else if d == 7 {
        '7'
    } else if d == 8 {
        '8'
    } else {
        '9'
    }
}

/// The character for the decimal digit `d`.
fn digit(d: u64) -> (c: char)
    requires
        d < 10,
    ensures
        c == digit_char(d as int),
{
    if d == 0 {
        '0'
    } else if d == 1 {
        '1'
    } else if d == 2 {
        '2'
    } else if d == 3 {
        '3'
    } else if d == 4 {
        '4'
    } else if d == 5 {
        '5'
    } else if d == 6 {
        '6'
    } else if d == 7 {
        '7'
    } else if d == 8 {
        '8'
    } else {
        '9'
    }
}

/// The decimal digits of `n`, most significant first, without leading
/// zeros; `0` for zero.
pub open spec fn decimal_text(n: nat) -> Seq<char>
    decreases n,
{
    if n < 10 {
        seq![digit_char(n as int)]
    } else {
        decimal_text(n / 10).push(digit_char((n % 10) as int))
    }
}

/// `n` in decimal.
pub fn decimal(n: u64) -> (s: String)
    ensures
        s@ == decimal_text(n as nat),
    decreases n,
{
    if n < 10 {
        let mut s = String::new();
        s.push(digit(n));
        proof {
            assert(s@ =~= seq![digit_char(n as int)]);
        }
        s
    } else {
        let mut s = decimal(n / 10);
        s.push(digit(n % 10));
        s
    }
}

/// Seconds in a day.
pub const DAY: u64 = 86400;

/// The time of day of a moment given in seconds since the epoch, as
/// `HH:MM`, both fields with two digits.
pub open spec fn clock_text(timestamp: u64) -> Seq<char> {
    let seconds = timestamp as int % 86400;
    let hours = seconds / 3600;
    let minutes = (seconds % 3600) / 60;
    seq![
        digit_char(hours / 10),
        digit_char(hours % 10),
        ':',
        digit_char(minutes / 10),
        digit_char(minutes % 10),
    ]
}

/// The time of day of `timestamp`, hours and minutes.
pub fn format_timestamp(timestamp: u64) -> (s: String)
    ensures
        s@ == clock_text(timestamp),
{
    let seconds = timestamp % DAY;
    let hours = seconds / 3600;
    let minutes = (seconds % 3600) / 60;
    let mut s = String::new();
    s.push(digit(hours / 10));
    s.push(digit(hours % 10));
    s.push(':');
    s.push(digit(minutes / 10));
    s.push(digit(minutes % 10));
    proof {
        assert(s@ =~= clock_text(timestamp));
    }
    s
}

/// The name in front of the first colon of a shown message, without the
/// whitespace around it. A message without a colon counts as a name
/// altogether.
pub open spec fn speaker_of(content: Seq<char>) -> Seq<char> {
    trimmed(content.take(first_index(content, ':')))
}

/// The text put in front of a reply that quotes a message shown at
/// `timestamp` with the text `content`.
pub open spec fn quote_prefix_text(timestamp: u64, content: Seq<char>) -> Seq<char> {
    "[Quote "@ + clock_text(timestamp) + "] "@ + speaker_of(content) + ": "@
}

/// Who said the shown message `content`.
pub fn speaker(content: &str) -> (name: String)
    ensures
        name@ == speaker_of(content@),
{
    let chars = chars_of(content);
    let n = chars.len();
    let mut i: usize = 0;
    while i < n && chars[i] != ':'
        invariant
            n == chars@.len(),
            i <= n,
            forall|j: int| 0 <= j < i ==> chars@[j] != ':',
        decreases n - i,
    {
        i += 1;
    }
    proof {
        lemma_first_index_unique(chars@, ':', i as int);
    }
    let head = slice_subrange(chars.as_slice(), 0, i);
    let (a, b) = trim_bounds(head);
    proof {
        assert(head@.subrange(a as int, b as int) == content@.subrange(a as int, b as int));
    }
    cut(content, a, b)
}

/// The text to put in front of a reply that quotes the message shown at
/// `timestamp` with the text `content`.
pub fn quote_prefix(timestamp: u64, content: &str) -> (prefix: String)
    ensures
        prefix@ == quote_prefix_text(timestamp, content@),
{
    let clock = format_timestamp(timestamp);
    let name = speaker(content);
    let a = glue("[Quote ", clock.as_str());
    let b = glue(a.as_str(), "] ");
    let c = glue(b.as_str(), name.as_str());
    glue(c.as_str(), ": ")
}

/// What is left of `name` from its second word on: `name` without the
/// whitespace in front, without the first word, and without the whitespace
/// that follows it. Empty when `name` has fewer than two words.
pub open spec fn from_second_word(name: Seq<char>) -> Seq<char> {
    let first = name.skip(leading_blank(name));
    let gap = first.skip(leading_solid(first));
    gap.skip(leading_blank(gap))
}

/// The initials shown in a user's avatar: the first characters of the
/// first two words, in upper case, if the name has two words; else the
/// first character of the name in upper case; `?` for the empty name.
pub open spec fn initials_of(name: Seq<char>) -> Seq<char> {
    if from_second_word(name).len() > 0 {
        uppercase(name[leading_blank(name)]) + uppercase(from_second_word(name)[0])
    } else if name.len() > 0 {
        uppercase(name[0])
    } else {
        "?"@
    }
}

/// The initials for the avatar of `username`.
pub fn get_user_initials(username: &str) -> (initials: String)
    ensures
        initials@ == initials_of(username@),
{
    let chars = chars_of(username);
    let n = chars.len();
    if n == 0 {
        return "?".to_owned();
    }
    let mut a: usize = 0;
    while a < n && char_is_whitespace(chars[a])
        invariant
            n == chars@.len(),
            a <= n,
            forall|j: int| 0 <= j < a ==> is_whitespace(chars@[j]),
        decreases n - a,
    {
        a += 1;
    }
    let mut b: usize = a;
    while b < n && !char_is_whitespace(chars[b])
        invariant
            n == chars@.len(),
            a <= b <= n,
            forall|j: int| a <= j < b ==> !is_whitespace(chars@[j]),
        decreases n - b,
    {
        b += 1;
    }
    let mut c: usize = b;
    while c < n && char_is_whitespace(chars[c])
        invariant
            n == chars@.len(),
            b <= c <= n,
            forall|j: int| b <= j < c ==> is_whitespace(chars@[j]),
        decreases n - c,
    {
        c += 1;
    }
    proof {
        let name = username@;
        lemma_leading_blank(name);
        assert(leading_blank(name) == a) by {
            if leading_blank(name) < a {
            } else if a < leading_blank(name) {
            }
        }
        let first = name.skip(a as int);
        lemma_leading_solid(first);
        assert(leading_solid(first) == b - a) by {
            let k = leading_solid(first);
            if k < b - a {
                assert(first[k] == name[a + k]);
            } else if b - a < k {
                assert(first[b - a] == name[b as int]);
            }
        }
        let gap = first.skip(b - a);
        assert(gap == name.skip(b as int));
        lemma_leading_blank(gap);
        assert(leading_blank(gap) == c - b) by {
            let k = leading_blank(gap);
            if k < c - b {
                assert(gap[k] == name[b + k]);
            } else if c - b < k {
                assert(gap[c - b] == name[c as int]);
            }
        }
        assert(gap.skip(c - b) == name.skip(c as int));
        if c < n {
            assert(name.skip(c as int)[0] == name[c as int]);
        }
    }
    if c < n {
        let first = upper_text(chars[a]);
        let second = upper_text(chars[c]);
        glue(first.as_str(), second.as_str())
    } else {
        upper_text(chars[0])
    }
}

/// The number that a name hashes to: starting from zero, each byte of the
/// name turns the number `h` into `h * 31 + byte`, cut to 32 bits.
pub open spec fn name_hash(bytes: Seq<u8>) -> u32
    decreases bytes.len(),
{
    if bytes.len() == 0 {
        0
    } else {
        name_hash(bytes.drop_last()).wrapping_mul(31).wrapping_add(bytes.last() as u32)
    }
}

/// Number of avatar colours.
pub const AVATAR_COLORS: usize = 12;

/// The avatar colours, as red, green and blue.
pub open spec fn palette(index: int) -> (u8, u8, u8) {
    if index == 0 {
        (239, 68, 68)
    } else if index == 1 {
        (245, 101, 101)
    } else if index == 2 {
        (251, 146, 60)
    } else if index == 3 {
        (251, 191, 36)
    } else if index == 4 {
        (34, 197, 94)
    } else if index == 5 {
        (16, 185, 129)
    } else if index == 6 {
        (6, 182, 212)
    } else if index == 7 {
        (59, 130, 246)
    } else if index == 8 {
        (99, 102, 241)
    } else if index == 9 {
        (139, 92, 246)
    } else if index == 10 {
        (168, 85, 247)
    } else {
        (236, 72, 153)
    }
}

/// Which of the avatar colours a user gets: the hash of the name's UTF-8
/// bytes, modulo the number of colours.
pub open spec fn avatar_index_of(name: Seq<char>) -> int {
    name_hash(encode_utf8(name)) as int % 12
}

/// Which of the avatar colours the user `username` gets. The same name
/// always gets the same colour.
pub fn avatar_index(username: &str) -> (index: usize)
    ensures
        index == avatar_index_of(username@),
        index < AVATAR_COLORS,
{
    let bytes = username.as_bytes();
    let n = bytes.len();
    let mut hash: u32 = 0;
    let mut i: usize = 0;
    while i < n
        invariant
            n == bytes@.len(),
            i <= n,
            hash == name_hash(bytes@.take(i as int)),
        decreases n - i,
    {
        proof {
            let upto = bytes@.take(i + 1);
            assert(upto.drop_last() == bytes@.take(i as int));
            assert(upto.last() == bytes@[i as int]);
        }
        hash = hash.wrapping_mul(31).wrapping_add(bytes[i] as u32);
        i += 1;
    }
    proof {
        assert(bytes@.take(n as int) == bytes@);
    }
    (hash as usize) % AVATAR_COLORS
}

/// The colour of the avatar of `username`, as red, green and blue.
pub fn get_user_avatar_color(username: &str) -> (color: (u8, u8, u8))
    ensures
        color == palette(avatar_index_of(username@)),
{
    let index = avatar_index(username);
    if index == 0 {
        (239, 68, 68)
    } else if index == 1 {
        (245, 101, 101)
    } else if index == 2 {
        (251, 146, 60)
    } else if index == 3 {
        (251, 191, 36)
    } else if index == 4 {
        (34, 197, 94)
    } else if index == 5 {
        (16, 185, 129)
    } else if index == 6 {
        (6, 182, 212)
    } else if index == 7 {
        (59, 130, 246)
    } else if index == 8 {
        (99, 102, 241)
    } else if index == 9 {
        (139, 92, 246)
    } else if index == 10 {
        (168, 85, 247)
    } else {
        (236, 72, 153)
    }
}

} // verus!
