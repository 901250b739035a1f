//! Light mark-up in chat messages: common emoticons become emoji, a
//! message that begins with a web address carries a link, and the first
//! stretch between two `**` is bold.
//!
//! The result is a short list of segments for the presentation layer to
//! draw one after the other.

use crate::seqs::{
    contains_seq, find, first_index, lemma_find, lemma_first_index_unique, occurs_at,
};
use crate::text::{chars_of, contains_text, cut, find_in, glue, is_blank, trim_bounds};
use vstd::prelude::*;
use vstd::slice::slice_subrange;
use vstd::utf8::encode_utf8;

verus! {

/// Messages longer than this many bytes are shown as they are.
pub const PLAIN_ABOVE: usize = 200;

/// A stretch of a message that is drawn in one style.
#[derive(Clone, Debug, PartialEq, Eq)]
pub enum Segment {
    /// Ordinary text.
    Plain(String),
    /// A web address, shown as a link to itself.
    Link(String),
    /// Text in bold.
    Bold(String),
}

/// The mathematical value of a [`Segment`].
pub enum SegmentView {
    Plain(Seq<char>),
    Link(Seq<char>),
    Bold(Seq<char>),
}

impl View for Segment {
    type V = SegmentView;

    open spec fn view(&self) -> SegmentView {
        match self {
            Segment::Plain(t) => SegmentView::Plain(t@),
            Segment::Link(t) => SegmentView::Link(t@),
            Segment::Bold(t) => SegmentView::Bold(t@),
        }
    }
}

/// The values of a list of segments, in order.
pub open spec fn segment_views(list: Seq<Segment>) -> Seq<SegmentView> {
    list.map_values(|s: Segment| s@)
}

/// `s` with every occurrence of `from` replaced by `to`, going from left
/// to right; an occurrence that overlaps an earlier one does not count. An
/// empty `from` replaces nothing.
pub open spec fn replace_all(s: Seq<char>, from: Seq<char>, to: Seq<char>) -> Seq<char>
    decreases s.len(),
{
    let at = find(s, from);
    if from.len() == 0 || at < 0 || at + from.len() > s.len() {
        s
    } else {
        s.take(at) + to + replace_all(s.skip(at + from.len()), from, to)
    }
}

/// `s` with the eight emoticons replaced by their emoji, one emoticon
/// after the other in this order.
pub open spec fn with_emoji(s: Seq<char>) -> Seq<char> {
    let a = replace_all(s, ":)"@, "😊"@);
    let b = replace_all(a, ":("@, "😢"@);
    let c = replace_all(b, ":D"@, "😃"@);
    let d = replace_all(c, ";)"@, "😉"@);
    let e = replace_all(d, "<3"@, "❤️"@);
    let f = replace_all(e, "</3"@, "💔"@);
    let g = replace_all(f, ":P"@, "😛"@);
    replace_all(g, ":p"@, "😛"@)
}

/// True when `s` begins with `prefix`.
pub open spec fn begins_with(s: Seq<char>, prefix: Seq<char>) -> bool {
    occurs_at(s, prefix, 0)
}

/// The segments of a message that begins with a web address: the address
/// runs up to the first space, and what follows is shown as text unless it
/// is blank.
pub open spec fn link_segments(p: Seq<char>) -> Seq<SegmentView> {
    let space = first_index(p, ' ');
    if space < p.len() {
        if is_blank(p.skip(space)) {
            seq![SegmentView::Link(p.take(space))]
        } else {
            seq![SegmentView::Link(p.take(space)), SegmentView::Plain(p.skip(space))]
        }
    } else {
        seq![SegmentView::Link(p)]
    }
}

/// A list with `s` as plain text, or the empty list if `s` is empty.
pub open spec fn plain_if_any(s: Seq<char>) -> Seq<SegmentView> {
    if s.len() == 0 {
        Seq::empty()
    } else {
        seq![SegmentView::Plain(s)]
    }
}

/// The segments of a message that does not begin with a web address: if
/// `**` occurs twice, what stands between the first two is bold and what
/// stands around them is text; otherwise everything is text.
pub open spec fn bold_segments(p: Seq<char>) -> Seq<SegmentView> {
    let open = find(p, "**"@);
    if open >= 0 {
        let inner = p.skip(open + 2);
        let close = find(inner, "**"@);
        if close >= 0 {
            plain_if_any(p.take(open)) + seq![SegmentView::Bold(inner.take(close))] + plain_if_any(
                inner.skip(close + 2),
            )
        } else {
            seq![SegmentView::Plain(p)]
        }
    } else {
        seq![SegmentView::Plain(p)]
    }
}

/// The segments of a message.
pub open spec fn rich_segments(text: Seq<char>) -> Seq<SegmentView> {
    if encode_utf8(text).len() > 200 {
        seq![SegmentView::Plain(text)]
    } else {
        let p = with_emoji(text);
        if begins_with(p, "http://"@) || begins_with(p, "https://"@) {
            link_segments(p)
        } else {
            bold_segments(p)
        }
    }
}

/// `text` with every occurrence of `from` replaced by `to`.
pub fn replace(text: &str, from: &str, to: &str) -> (out: String)
    ensures
        out@ == replace_all(text@, from@, to@),
{
    let chars = chars_of(text);
    let wanted = chars_of(from);
    let n = chars.len();
    let m = wanted.len();
    let mut out = String::new();
    if m == 0 {
        return text.to_owned();
    }
    let mut pos: usize = 0;
    proof {
        assert(text@.skip(0) == text@);
        assert(out@ + replace_all(text@, from@, to@) == replace_all(text@, from@, to@));
    }
    loop
        invariant
            n == chars@.len(),
            m == wanted@.len(),
            m > 0,
            chars@ == text@,
            wanted@ == from@,
            pos <= n,
            out@ + replace_all(text@.skip(pos as int), from@, to@) == replace_all(
                text@,
                from@,
                to@,
            ),
        decreases n - pos,
    {
        let rest = slice_subrange(chars.as_slice(), pos, n);
        proof {
            lemma_find(rest@, wanted@);
            assert(rest@ == text@.skip(pos as int));
        }
        match find_in(rest, wanted.as_slice()) {
            Some(at) => {
                let piece = cut(text, pos, pos + at);
                let ghost before = out@;
                out = glue(out.as_str(), piece.as_str());
                out = glue(out.as_str(), to);
                proof {
                    assert(piece@ == rest@.take(at as int));
                    assert(rest@.skip(at + m) == text@.skip(pos + at + m));
                    assert(out@ + replace_all(text@.skip(pos + at + m), from@, to@) == before + (
                    rest@.take(at as int) + to@ + replace_all(rest@.skip(at + m), from@, to@)));
                }
                pos = pos + at + m;
            },
            None => {
                let piece = cut(text, pos, n);
                proof {
                    assert(piece@ == rest@);
                }
                return glue(out.as_str(), piece.as_str());
            },
        }
    }
}

/// `text` with the emoticons replaced by emoji.
pub fn emoji(text: &str) -> (out: String)
    ensures
        out@ == with_emoji(text@),
{
    let a = replace(text, ":)", "😊");
    let b = replace(a.as_str(), ":(", "😢");
    let c = replace(b.as_str(), ":D", "😃");
    let d = replace(c.as_str(), ";)", "😉");
    let e = replace(d.as_str(), "<3", "❤️");
    let f = replace(e.as_str(), "</3", "💔");
    let g = replace(f.as_str(), ":P", "😛");
    replace(g.as_str(), ":p", "😛")
}

/// Whether `s` begins with `prefix`.
fn starts_with(s: &[char], prefix: &[char]) -> (r: bool)
    ensures
        r == begins_with(s@, prefix@),
{
    let m = prefix.len();
    if m > s.len() {
        return false;
    }
    let mut j: usize = 0;
    while j < m
        invariant
            m == prefix@.len(),
            m <= s@.len(),
            j <= m,
            forall|k: int| 0 <= k < j ==> s@[k] == prefix@[k],
        decreases m - j,
    {
        if s[j] != prefix[j] {
            proof {
                assert(s@.subrange(0, m as int)[j as int] == s@[j as int]);
            }
            return false;
        }
        j += 1;
    }
    proof {
        assert(s@.subrange(0, m as int) =~= prefix@);
    }
    true
}

/// A list of the given segments.
fn listed(first: Option<Segment>, second: Segment, third: Option<Segment>) -> (out: Vec<Segment>)
    ensures
        segment_views(out@) == (match first {
            Some(s) => seq![s@],
            None => Seq::empty(),
        }) + seq![second@] + (match third {
            Some(s) => seq![s@],
            None => Seq::empty(),
        }),
{
    let mut out: Vec<Segment> = Vec::new();
    if let Some(s) = first {
        out.push(s);
    }
    out.push(second);
    if let Some(s) = third {
        out.push(s);
    }
    proof {
        assert(segment_views(out@) =~= (match first {
            Some(s) => seq![s@],
            None => Seq::empty(),
        }) + seq![second@] + (match third {
            Some(s) => seq![s@],
            None => Seq::empty(),
        }));
    }
    out
}

/// `text` as plain text, unless it is empty.
fn plain_part(text: String) -> (r: Option<Segment>)
    ensures
        (match r {
            Some(s) => seq![s@],
            None => Seq::empty(),
        }) == plain_if_any(text@),
{
    if text.as_str().unicode_len() == 0 {
        None
    } else {
        Some(Segment::Plain(text))
    }
}

/// The segments of a message that begins with a web address.
fn link_parts(p: &str) -> (out: Vec<Segment>)
    ensures
        segment_views(out@) == link_segments(p@),
{
    let chars = chars_of(p);
    let n = chars.len();
    let mut i: usize = 0;
    while i < n && chars[i] != ' '
        invariant
            n == chars@.len(),
            i <= n,
            forall|j: int| 0 <= j < i ==> chars@[j] != ' ',
        decreases n - i,
    {
        i += 1;
    }
    proof {
        lemma_first_index_unique(chars@, ' ', i as int);
    }
    if i < n {
        let url = cut(p, 0, i);
        let rest = slice_subrange(chars.as_slice(), i, n);
        let (a, b) = trim_bounds(rest);
        proof {
            assert(rest@ == p@.skip(i as int));
            assert(url@ == p@.take(i as int));
        }
        if a == b {
            listed(None, Segment::Link(url), None)
        } else {
            listed(None, Segment::Link(url), Some(Segment::Plain(cut(p, i, n))))
        }
    } else {
        proof {
            assert(p@.subrange(0, n as int) == p@);
        }
        listed(None, Segment::Link(p.to_owned()), None)
    }
}

/// The segments of a message that does not begin with a web address.
fn bold_parts(p: &str) -> (out: Vec<Segment>)
    ensures
        segment_views(out@) == bold_segments(p@),
{
    let chars = chars_of(p);
    let stars = chars_of("**");
    let n = chars.len();
    proof {
        reveal_strlit("**");
        lemma_find(chars@, stars@);
    }
    match find_in(chars.as_slice(), stars.as_slice()) {
        Some(open) => {
            let inner = slice_subrange(chars.as_slice(), open + 2, n);
            proof {
                lemma_find(inner@, stars@);
                assert(inner@ == p@.skip(open + 2));
            }
            match find_in(inner, stars.as_slice()) {
                Some(close) => {
                    let before = cut(p, 0, open);
                    let bold = cut(p, open + 2, open + 2 + close);
                    let after = cut(p, open + 4 + close, n);
                    proof {
                        assert(before@ == p@.take(open as int));
                        assert(bold@ == inner@.take(close as int));
                        assert(after@ == inner@.skip(close + 2));
                    }
                    listed(plain_part(before), Segment::Bold(bold), plain_part(after))
                },
                None => listed(None, Segment::Plain(p.to_owned()), None),
            }
        },
        None => listed(None, Segment::Plain(p.to_owned()), None),
    }
}

/// True when a shown message concerns the user in person: it speaks of
/// "You" or of a whisper.
pub open spec fn is_mention(content: Seq<char>) -> bool {
    contains_seq(content, "You"@) || contains_seq(content, "whisper"@)
}

/// Whether the shown message `content` is to be highlighted as concerning
/// the user in person.
pub fn mentions_user(content: &str) -> (r: bool)
    ensures
        r == is_mention(content@),
{
    let chars = chars_of(content);
    let you = chars_of("You");
    let whisper = chars_of("whisper");
    contains_text(chars.as_slice(), you.as_slice()) || contains_text(
        chars.as_slice(),
        whisper.as_slice(),
    )
}

/// Longest preview of a quoted message, in characters.
pub const PREVIEW_CHARS: usize = 50;

/// The preview of a quoted message: the message itself if it has at most
/// fifty characters, else its first fifty characters and three dots.
pub open spec fn preview_text(content: Seq<char>) -> Seq<char> {
    if content.len() > 50 {
        content.take(50) + "..."@
    } else {
        content
    }
}

/// The preview of the quoted message `content`.
pub fn preview(content: &str) -> (out: String)
    ensures
        out@ == preview_text(content@),
{
    let n = content.unicode_len();
    if n > PREVIEW_CHARS {
        let head = cut(content, 0, PREVIEW_CHARS);
        glue(head.as_str(), "...")
    } else {
        content.to_owned()
    }
}

/// Cuts a message into the segments to draw.
pub fn render_rich_text(text: &str) -> (out: Vec<Segment>)
    ensures
        segment_views(out@) == rich_segments(text@),
{
    if text.as_bytes().len() > PLAIN_ABOVE {
        return listed(None, Segment::Plain(text.to_owned()), None);
    }
    let processed = emoji(text);
    let chars = chars_of(processed.as_str());
    let http = chars_of("http://");
    let https = chars_of("https://");
    if starts_with(chars.as_slice(), http.as_slice()) || starts_with(
        chars.as_slice(),
        https.as_slice(),
    ) {
        link_parts(processed.as_str())
    } else {
        bold_parts(processed.as_str())
    }
}

} // verus!
