//! From a stream of reads to whole lines.
//!
//! The socket delivers bytes in pieces that need not end where a line
//! ends. A [`LineReader`] keeps what has arrived of the line in progress
//! and hands out each line once its `\r\n` has come in, so that a line cut
//! in two by the network is put together again and several lines in one
//! piece come out one by one.

use crate::seqs::{
    break_at, complete_lines, lemma_first_break_unique, lemma_lines_append, unfinished,
};
use crate::text::{glue, texts, utf8_text};
use vstd::prelude::*;
use vstd::slice::{slice_subrange, slice_to_vec};
use vstd::utf8::{decode_utf8, valid_utf8};

verus! {

/// Carriage return, the first byte of a line break.
pub const CR: u8 = 13;

/// Line feed, the second byte of a line break.
pub const LF: u8 = 10;

/// A unit of a stream that can be compared: a byte or a character.
pub trait Symbol: Copy {
    /// Whether `self` and `other` are the same unit.
    fn same(self, other: Self) -> (r: bool)
        ensures
            r == (self == other),
    ;
}

impl Symbol for u8 {
    fn same(self, other: u8) -> (r: bool) {
        self == other
    }
}

impl Symbol for char {
    fn same(self, other: char) -> (r: bool) {
        self == other
    }
}

/// Where the complete lines of `data` start and end, and where the
/// unfinished rest begins.
pub fn line_bounds<T: Symbol>(data: &[T], cr: T, lf: T) -> (r: (Vec<(usize, usize)>, usize))
    ensures
        r.0@.len() == complete_lines(data@, cr, lf).len(),
        forall|k: int|
            0 <= k < r.0@.len() ==> {
                &&& (#[trigger] r.0@[k]).0 <= r.0@[k].1 <= data@.len()
                &&& data@.subrange(r.0@[k].0 as int, r.0@[k].1 as int) == complete_lines(
                    data@,
                    cr,
                    lf,
                )[k]
            },
        r.1 <= data@.len(),
        data@.skip(r.1 as int) == unfinished(data@, cr, lf),
{
    let n = data.len();
    let mut bounds: Vec<(usize, usize)> = Vec::new();
    let mut start: usize = 0;
    let mut i: usize = 0;
    let ghost done: Seq<Seq<T>> = Seq::empty();
    proof {
        assert(data@.skip(0) == data@);
        assert(done + complete_lines(data@, cr, lf) == complete_lines(data@, cr, lf));
    }
    while i < n
        invariant
            n == data@.len(),
            start <= i <= n,
            bounds@.len() == done.len(),
            complete_lines(data@, cr, lf) == done + complete_lines(data@.skip(start as int), cr, lf),
            unfinished(data@, cr, lf) == unfinished(data@.skip(start as int), cr, lf),
            forall|j: int| start <= j < i ==> !break_at(data@, cr, lf, j),
            forall|k: int|
                0 <= k < bounds@.len() ==> {
                    &&& (#[trigger] bounds@[k]).0 <= bounds@[k].1 <= data@.len()
                    &&& data@.subrange(bounds@[k].0 as int, bounds@[k].1 as int) == done[k]
                },
        decreases n - i,
    {
        if i + 1 < n && data[i].same(cr) && data[i + 1].same(lf) {
            proof {
                let rest = data@.skip(start as int);
                let at = i - start;
                assert forall|j: int| 0 <= j < at implies !break_at(rest, cr, lf, j) by {
                    assert(!break_at(data@, cr, lf, start + j));
                    assert(rest[j] == data@[start + j]);
                    assert(rest[j + 1] == data@[start + j + 1]);
                }
                assert(rest[at] == data@[i as int]);
                assert(rest[at + 1] == data@[i + 1]);
                assert(break_at(rest, cr, lf, at));
                lemma_first_break_unique(rest, cr, lf, at);
                let piece = data@.subrange(start as int, i as int);
                assert(rest.take(at) == piece);
                assert(rest.skip(at + 2) == data@.skip(i + 2));
                assert(complete_lines(rest, cr, lf) == seq![piece] + complete_lines(
                    data@.skip(i + 2),
                    cr,
                    lf,
                ));
                assert(complete_lines(data@, cr, lf) == (done + seq![piece]) + complete_lines(
                    data@.skip(i + 2),
                    cr,
                    lf,
                ));
                done = done + seq![piece];
            }
            bounds.push((start, i));
            start = i + 2;
            i = i + 2;
        } else {
            i = i + 1;
        }
    }
    proof {
        let rest = data@.skip(start as int);
        assert forall|j: int| 0 <= j < rest.len() implies !break_at(rest, cr, lf, j) by {
            if j + 1 < rest.len() {
                assert(!break_at(data@, cr, lf, start + j));
                assert(rest[j] == data@[start + j]);
                assert(rest[j + 1] == data@[start + j + 1]);
            }
        }
        lemma_first_break_unique(rest, cr, lf, rest.len() as int);
        assert(complete_lines(rest, cr, lf) == Seq::<Seq<T>>::empty());
        assert(done + Seq::<Seq<T>>::empty() == done);
    }
    (bounds, start)
}

/// The texts of the lines that can be shown: empty lines and lines that
/// are not well-formed UTF-8 are left out, the others are decoded, in order.
pub open spec fn readable(lines: Seq<Seq<u8>>) -> Seq<Seq<char>>
    decreases lines.len(),
{
    if lines.len() == 0 {
        Seq::empty()
    } else {
        let front = readable(lines.drop_last());
        let line = lines.last();
        if line.len() > 0 && valid_utf8(line) {
            front.push(decode_utf8(line))
        } else {
            front
        }
    }
}

/// What one attempt to read from the socket brought.
#[derive(Clone, Debug, PartialEq, Eq)]
pub enum ReadOutcome {
    /// Bytes arrived.
    Data(Vec<u8>),
    /// Nothing to read at the moment.
    Idle,
    /// The peer closed the connection.
    Closed,
    /// The read failed for the given reason.
    Failed(String),
}

/// The mathematical value of a [`ReadOutcome`].
pub enum OutcomeView {
    Data(Seq<u8>),
    Idle,
    Closed,
    Failed(Seq<char>),
}

impl View for ReadOutcome {
    type V = OutcomeView;

    open spec fn view(&self) -> OutcomeView {
        match self {
            ReadOutcome::Data(bytes) => OutcomeView::Data(bytes@),
            ReadOutcome::Idle => OutcomeView::Idle,
            ReadOutcome::Closed => OutcomeView::Closed,
            ReadOutcome::Failed(cause) => OutcomeView::Failed(cause@),
        }
    }
}

/// What the reader does after one read: the lines to forward, in order,
/// and whether reading goes on.
#[derive(Clone, Debug, PartialEq, Eq)]
pub struct ReaderStep {
    pub lines: Vec<String>,
    pub finished: bool,
}

/// The line forwarded when the peer has closed the connection.
pub open spec fn closed_line() -> Seq<char> {
    "1019 ERROR Connection closed by server"@
}

/// The line forwarded when a read has failed for the reason `cause`.
pub open spec fn failure_line(cause: Seq<char>) -> Seq<char> {
    "1019 ERROR Read error: "@ + cause
}

/// The bytes that wait for the rest of their line after `chunk` has been
/// added to the waiting bytes `pending`.
pub open spec fn pending_after(pending: Seq<u8>, chunk: Seq<u8>) -> Seq<u8> {
    unfinished(pending + chunk, CR, LF)
}

/// The lines that come out when `chunk` is added to the waiting bytes
/// `pending`.
pub open spec fn lines_after(pending: Seq<u8>, chunk: Seq<u8>) -> Seq<Seq<char>> {
    readable(complete_lines(pending + chunk, CR, LF))
}

/// The readable lines of two lists in a row are those of the first, then
/// those of the second.
pub proof fn lemma_readable_append(first: Seq<Seq<u8>>, second: Seq<Seq<u8>>)
    ensures
        readable(first + second) == readable(first) + readable(second),
    decreases second.len(),
{
    if second.len() == 0 {
        assert(first + second == first);
    } else {
        let all = first + second;
        assert(all.drop_last() == first + second.drop_last());
        assert(all.last() == second.last());
        lemma_readable_append(first, second.drop_last());
    }
}

/// It makes no difference where the network cuts the stream: taking in
/// `a` and then `b` yields the same lines, in the same order, and leaves
/// the same bytes waiting, as taking in `a` and `b` in one piece.
pub proof fn lemma_cut_anywhere(pending: Seq<u8>, a: Seq<u8>, b: Seq<u8>)
    ensures
        lines_after(pending, a) + lines_after(pending_after(pending, a), b) == lines_after(
            pending,
            a + b,
        ),
        pending_after(pending_after(pending, a), b) == pending_after(pending, a + b),
{
    assert((pending + a) + b == pending + (a + b));
    lemma_lines_append(pending + a, b, CR, LF);
    lemma_readable_append(
        complete_lines(pending + a, CR, LF),
        complete_lines(unfinished(pending + a, CR, LF) + b, CR, LF),
    );
}

/// What goes over the wire for an outgoing command: the command followed
/// by a line break.
pub fn frame_command(command: &str) -> (wire: String)
    ensures
        wire@ == command@ + "\r\n"@,
{
    glue(command, "\r\n")
}

/// Collects the bytes of the line in progress.
pub struct LineReader {
    pending: Vec<u8>,
}

impl View for LineReader {
    type V = Seq<u8>;

    closed spec fn view(&self) -> Seq<u8> {
        self.pending@
    }
}

/// Adds the bytes of `chunk` to `buffer`.
fn append_bytes(buffer: &mut Vec<u8>, chunk: &[u8])
    ensures
        final(buffer)@ == old(buffer)@ + chunk@,
{
    let n = chunk.len();
    let mut i: usize = 0;
    while i < n
        invariant
            n == chunk@.len(),
            i <= n,
            buffer@ == old(buffer)@ + chunk@.take(i as int),
        decreases n - i,
    {
        buffer.push(chunk[i]);
        proof {
            assert(chunk@.take(i + 1) == chunk@.take(i as int).push(chunk@[i as int]));
        }
        i += 1;
    }
    proof {
        assert(chunk@.take(n as int) == chunk@);
    }
}

/// A list holding one line.
fn one_line(line: String) -> (lines: Vec<String>)
    ensures
        texts(lines@) == seq![line@],
{
    let mut lines: Vec<String> = Vec::new();
    lines.push(line);
    proof {
        assert(texts(lines@) =~= seq![line@]);
    }
    lines
}

impl LineReader {
    /// A reader with no bytes waiting.
    pub fn new() -> (reader: LineReader)
        ensures
            reader@ == Seq::<u8>::empty(),
    {
        LineReader { pending: Vec::new() }
    }

    /// A reader that starts with the bytes of `pending` waiting: the
    /// beginning of a line that arrived before reading was handed over.
    pub fn resume(pending: Vec<u8>) -> (reader: LineReader)
        ensures
            reader@ == pending@,
    {
        LineReader { pending }
    }

    /// Number of bytes waiting for the rest of their line.
    pub fn pending_len(&self) -> (n: usize)
        ensures
            n == self@.len(),
    {
        self.pending.len()
    }

    /// Takes in the bytes of one read. Returns the text of every line that
    /// the bytes complete, in order of arrival; empty lines and lines that
    /// are not UTF-8 are dropped. What follows the last line break waits
    /// for the next read.
    pub fn push(&mut self, chunk: &[u8]) -> (lines: Vec<String>)
        ensures
            final(self)@ == pending_after(old(self)@, chunk@),
            texts(lines@) == lines_after(old(self)@, chunk@),
    {
        append_bytes(&mut self.pending, chunk);
        let (bounds, rest) = line_bounds(self.pending.as_slice(), CR, LF);
        let ghost all = complete_lines(self.pending@, CR, LF);
        let mut lines: Vec<String> = Vec::new();
        let count = bounds.len();
        let mut k: usize = 0;
        proof {
            assert(all.take(0) == Seq::<Seq<u8>>::empty());
            assert(texts(lines@) =~= Seq::<Seq<char>>::empty());
        }
        while k < count
            invariant
                count == bounds@.len(),
                k <= count,
                all == complete_lines(self.pending@, CR, LF),
                bounds@.len() == all.len(),
                forall|j: int|
                    0 <= j < bounds@.len() ==> {
                        &&& (#[trigger] bounds@[j]).0 <= bounds@[j].1 <= self.pending@.len()
                        &&& self.pending@.subrange(bounds@[j].0 as int, bounds@[j].1 as int)
                            == all[j]
                    },
                texts(lines@) == readable(all.take(k as int)),
            decreases count - k,
        {
            let (from, to) = bounds[k];
            assert(bounds@[k as int].0 <= bounds@[k as int].1);
            let piece = slice_subrange(self.pending.as_slice(), from, to);
            proof {
                let upto = all.take(k + 1);
                assert(upto.drop_last() == all.take(k as int));
                assert(upto.last() == all[k as int]);
                assert(piece@ == all[k as int]);
            }
            if to > from {
                if let Some(text) = utf8_text(piece) {
                    let ghost before = lines@;
                    lines.push(text.to_owned());
                    proof {
                        assert(texts(lines@) =~= texts(before).push(text@));
                    }
                }
            }
            k += 1;
        }
        proof {
            assert(all.take(count as int) == all);
        }
        let total = self.pending.len();
        let tail = slice_to_vec(slice_subrange(self.pending.as_slice(), rest, total));
        proof {
            assert(tail@ == self.pending@.skip(rest as int));
        }
        self.pending = tail;
        lines
    }

    /// Decides what follows one read. Bytes yield their complete lines and
    /// reading goes on; a quiet socket yields nothing and reading goes on;
    /// a closed connection or a failed read yields one line that reports
    /// it, and reading ends.
    pub fn on_read(&mut self, outcome: &ReadOutcome) -> (step: ReaderStep)
        ensures
            match outcome@ {
                OutcomeView::Data(bytes) => {
                    &&& final(self)@ == pending_after(old(self)@, bytes)
                    &&& texts(step.lines@) == lines_after(old(self)@, bytes)
                    &&& !step.finished
                },
                OutcomeView::Idle => {
                    &&& final(self)@ == old(self)@
                    &&& texts(step.lines@) == Seq::<Seq<char>>::empty()
                    &&& !step.finished
                },
                OutcomeView::Closed => {
                    &&& final(self)@ == old(self)@
                    &&& texts(step.lines@) == seq![closed_line()]
                    &&& step.finished
                },
                OutcomeView::Failed(cause) => {
                    &&& final(self)@ == old(self)@
                    &&& texts(step.lines@) == seq![failure_line(cause)]
                    &&& step.finished
                },
            },
    {
        match outcome {
            ReadOutcome::Data(bytes) => {
                let lines = self.push(bytes.as_slice());
                ReaderStep { lines, finished: false }
            },
            ReadOutcome::Idle => {
                let lines: Vec<String> = Vec::new();
                proof {
                    assert(texts(lines@) =~= Seq::<Seq<char>>::empty());
                }
                ReaderStep { lines, finished: false }
            },
            ReadOutcome::Closed => {
                let line = "1019 ERROR Connection closed by server".to_owned();
                ReaderStep { lines: one_line(line), finished: true }
            },
            ReadOutcome::Failed(cause) => {
                let line = glue("1019 ERROR Read error: ", cause.as_str());
                ReaderStep { lines: one_line(line), finished: true }
            },
        }
    }
}

} // verus!
