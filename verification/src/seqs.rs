//! Mathematical vocabulary for the wire format: separators, tokens,
//! occurrences of a marker, and `\r\n`-terminated lines, all over `Seq`.
//!
//! Nothing here is executable. The executable counterparts live in
//! [`crate::text`] and [`crate::framing`] and are specified against these
//! definitions.

use vstd::prelude::*;

verus! {

/// Position of the first `x` in `s`, or `s.len()` when `s` holds no `x`.
pub open spec fn first_index<T>(s: Seq<T>, x: T) -> int
    decreases s.len(),
{
    if s.len() == 0 || s[0] == x {
        0
    } else {
        1 + first_index(s.drop_first(), x)
    }
}

/// `first_index` is in range, points at an `x` when in range, and nothing
/// before it is an `x`.
pub proof fn lemma_first_index<T>(s: Seq<T>, x: T)
    ensures
        0 <= first_index(s, x) <= s.len(),
        first_index(s, x) < s.len() ==> s[first_index(s, x)] == x,
        forall|j: int| 0 <= j < first_index(s, x) ==> s[j] != x,
    decreases s.len(),
{
    if s.len() == 0 || s[0] == x {
    } else {
        let t = s.drop_first();
        lemma_first_index(t, x);
        assert forall|j: int| 0 <= j < first_index(s, x) implies s[j] != x by {
            if j > 0 {
                assert(s[j] == t[j - 1]);
            }
        }
    }
}

/// Any position with the three properties of `lemma_first_index` is the
/// first index.
pub proof fn lemma_first_index_unique<T>(s: Seq<T>, x: T, k: int)
    requires
        0 <= k <= s.len(),
        k < s.len() ==> s[k] == x,
        forall|j: int| 0 <= j < k ==> s[j] != x,
    ensures
        first_index(s, x) == k,
{
    lemma_first_index(s, x);
}

/// True when `x` does not occur in `s`.
pub open spec fn free_of<T>(s: Seq<T>, x: T) -> bool {
    forall|j: int| 0 <= j < s.len() ==> s[j] != x
}

/// The pieces of `s` between consecutive occurrences of `sep`. There is
/// always at least one piece; adjacent separators give empty pieces.
pub open spec fn split<T>(s: Seq<T>, sep: T) -> Seq<Seq<T>>
    decreases s.len(),
{
    let i = first_index(s, sep);
    if 0 <= i < s.len() {
        seq![s.take(i)] + split(s.skip(i + 1), sep)
    } else {
        seq![s]
    }
}

/// The pieces put back together with one `sep` between neighbours.
pub open spec fn join<T>(parts: Seq<Seq<T>>, sep: T) -> Seq<T>
    decreases parts.len(),
{
    if parts.len() == 0 {
        Seq::empty()
    } else if parts.len() == 1 {
        parts[0]
    } else {
        parts[0] + seq![sep] + join(parts.drop_first(), sep)
    }
}

/// Splitting always yields at least one piece, and no piece holds the
/// separator.
pub proof fn lemma_split_pieces<T>(s: Seq<T>, sep: T)
    ensures
        split(s, sep).len() >= 1,
        forall|k: int| 0 <= k < split(s, sep).len() ==> free_of(#[trigger] split(s, sep)[k], sep),
    decreases s.len(),
{
    lemma_first_index(s, sep);
    let i = first_index(s, sep);
    if 0 <= i < s.len() {
        let rest = split(s.skip(i + 1), sep);
        lemma_split_pieces(s.skip(i + 1), sep);
        assert forall|k: int| 0 <= k < split(s, sep).len() implies free_of(
            #[trigger] split(s, sep)[k],
            sep,
        ) by {
            if k == 0 {
                assert(split(s, sep)[0] == s.take(i));
            } else {
                assert(split(s, sep)[k] == rest[k - 1]);
            }
        }
    } else {
        assert(split(s, sep)[0] == s);
    }
}

/// Joining what `split` produced gives the input back.
pub proof fn lemma_join_split<T>(s: Seq<T>, sep: T)
    ensures
        join(split(s, sep), sep) == s,
    decreases s.len(),
{
    lemma_first_index(s, sep);
    let i = first_index(s, sep);
    if 0 <= i < s.len() {
        let tail = s.skip(i + 1);
        let parts = split(s, sep);
        lemma_join_split(tail, sep);
        lemma_split_pieces(tail, sep);
        assert(parts.drop_first() == split(tail, sep));
        assert(parts[0] == s.take(i));
        assert(s == s.take(i) + seq![sep] + tail);
    } else {
    }
}

/// Splitting a join of separator-free pieces gives the pieces back.
pub proof fn lemma_split_join<T>(parts: Seq<Seq<T>>, sep: T)
    requires
        parts.len() >= 1,
        forall|k: int| 0 <= k < parts.len() ==> free_of(#[trigger] parts[k], sep),
    ensures
        split(join(parts, sep), sep) == parts,
    decreases parts.len(),
{
    let s = join(parts, sep);
    let head = parts[0];
    assert(free_of(head, sep));
    if parts.len() == 1 {
        lemma_first_index_unique(s, sep, s.len() as int);
        assert(split(s, sep) == seq![s]);
        assert(parts == seq![parts[0]]);
    } else {
        let others = parts.drop_first();
        assert forall|k: int| 0 <= k < others.len() implies free_of(#[trigger] others[k], sep) by {
            assert(others[k] == parts[k + 1]);
        }
        lemma_split_join(others, sep);
        let n = head.len() as int;
        assert(s == head + seq![sep] + join(others, sep));
        assert(s[n] == sep);
        assert forall|j: int| 0 <= j < n implies s[j] != sep by {
            assert(s[j] == head[j]);
        }
        lemma_first_index_unique(s, sep, n);
        assert(s.take(n) == head);
        assert(s.skip(n + 1) == join(others, sep));
        assert(split(s, sep) == seq![head] + others);
        assert(seq![head] + others == parts);
    }
}

/// The pieces from position `k` on, joined again; empty when `k` is past
/// the last piece.
pub open spec fn join_from<T>(parts: Seq<Seq<T>>, k: int, sep: T) -> Seq<T> {
    if 0 <= k < parts.len() {
        join(parts.skip(k), sep)
    } else {
        Seq::empty()
    }
}

/// True when `needle` stands in `hay` at position `i`.
pub open spec fn occurs_at<T>(hay: Seq<T>, needle: Seq<T>, i: int) -> bool {
    &&& 0 <= i
    &&& i + needle.len() <= hay.len()
    &&& hay.subrange(i, i + needle.len()) == needle
}

/// True when `needle` stands somewhere in `hay`.
pub open spec fn contains_seq<T>(hay: Seq<T>, needle: Seq<T>) -> bool {
    exists|i: int| occurs_at(hay, needle, i)
}

/// Position of the first occurrence of `needle` in `hay` at or after
/// `start`, or `-1` when there is none.
pub open spec fn find_from<T>(hay: Seq<T>, needle: Seq<T>, start: int) -> int
    decreases hay.len() - start,
{
    if start < 0 || start + needle.len() > hay.len() {
        -1
    } else if occurs_at(hay, needle, start) {
        start
    } else if start >= hay.len() {
        -1
    } else {
        find_from(hay, needle, start + 1)
    }
}

/// Position of the first occurrence of `needle` in `hay`, or `-1`.
pub open spec fn find<T>(hay: Seq<T>, needle: Seq<T>) -> int {
    find_from(hay, needle, 0)
}

/// `find_from` returns the least occurrence at or after `start`, and `-1`
/// exactly when there is none.
pub proof fn lemma_find_from<T>(hay: Seq<T>, needle: Seq<T>, start: int)
    requires
        0 <= start,
    ensures
        find_from(hay, needle, start) == -1 || (start <= find_from(hay, needle, start)
            && occurs_at(hay, needle, find_from(hay, needle, start))),
        forall|j: int|
            start <= j && (find_from(hay, needle, start) == -1 || j < find_from(hay, needle, start))
                ==> !occurs_at(hay, needle, j),
    decreases hay.len() - start,
{
    if start + needle.len() > hay.len() {
    } else if occurs_at(hay, needle, start) {
    } else if start >= hay.len() {
    } else {
        lemma_find_from(hay, needle, start + 1);
    }
}

/// `find` is `-1` exactly when `needle` does not occur in `hay`; otherwise
/// it is the least position where it does.
pub proof fn lemma_find<T>(hay: Seq<T>, needle: Seq<T>)
    ensures
        find(hay, needle) >= 0 <==> contains_seq(hay, needle),
        find(hay, needle) >= 0 ==> occurs_at(hay, needle, find(hay, needle)),
        find(hay, needle) >= -1,
        forall|j: int| 0 <= j < find(hay, needle) ==> !occurs_at(hay, needle, j),
{
    lemma_find_from(hay, needle, 0);
    if contains_seq(hay, needle) {
        let i = choose|i: int| occurs_at(hay, needle, i);
        assert(occurs_at(hay, needle, i));
    }
}

/// Position of the first `cr` that is directly followed by `lf`, or
/// `s.len()` when `s` holds no such pair.
pub open spec fn first_break<T>(s: Seq<T>, cr: T, lf: T) -> int
    decreases s.len(),
{
    if s.len() < 2 {
        s.len() as int
    } else if s[0] == cr && s[1] == lf {
        0
    } else {
        1 + first_break(s.drop_first(), cr, lf)
    }
}

/// True when a line break (`cr` then `lf`) starts at position `i` of `s`.
pub open spec fn break_at<T>(s: Seq<T>, cr: T, lf: T, i: int) -> bool {
    0 <= i && i + 1 < s.len() && s[i] == cr && s[i + 1] == lf
}

/// `first_break` is in range, points at a break when in range, and no
/// break starts before it.
pub proof fn lemma_first_break<T>(s: Seq<T>, cr: T, lf: T)
    ensures
        0 <= first_break(s, cr, lf) <= s.len(),
        first_break(s, cr, lf) < s.len() ==> break_at(s, cr, lf, first_break(s, cr, lf)),
        forall|j: int| 0 <= j < first_break(s, cr, lf) ==> !break_at(s, cr, lf, j),
    decreases s.len(),
{
    if s.len() < 2 {
    } else if s[0] == cr && s[1] == lf {
    } else {
        let t = s.drop_first();
        lemma_first_break(t, cr, lf);
        let r = first_break(t, cr, lf);
        if r < t.len() {
            assert(break_at(t, cr, lf, r));
            assert(s[r + 1] == t[r]);
            assert(s[r + 2] == t[r + 1]);
        }
        assert forall|j: int| 0 <= j < first_break(s, cr, lf) implies !break_at(s, cr, lf, j) by {
            if j > 0 {
                assert(!break_at(t, cr, lf, j - 1));
                assert(s[j] == t[j - 1]);
                if j + 1 < s.len() {
                    assert(s[j + 1] == t[j]);
                }
            }
        }
    }
}

/// Any position with the three properties of `lemma_first_break` is the
/// first break.
pub proof fn lemma_first_break_unique<T>(s: Seq<T>, cr: T, lf: T, k: int)
    requires
        0 <= k <= s.len(),
        k < s.len() ==> break_at(s, cr, lf, k),
        forall|j: int| 0 <= j < k ==> !break_at(s, cr, lf, j),
    ensures
        first_break(s, cr, lf) == k,
{
    lemma_first_break(s, cr, lf);
    let r = first_break(s, cr, lf);
    if r < k {
        assert(break_at(s, cr, lf, r));
    }
    if k < r {
        assert(break_at(s, cr, lf, k));
    }
}

/// The complete lines of `s`: every stretch that ends in a break, without
/// the break, in order.
pub open spec fn complete_lines<T>(s: Seq<T>, cr: T, lf: T) -> Seq<Seq<T>>
    decreases s.len(),
{
    let i = first_break(s, cr, lf);
    if 0 <= i && i + 1 < s.len() {
        seq![s.take(i)] + complete_lines(s.skip(i + 2), cr, lf)
    } else {
        Seq::empty()
    }
}

/// What follows the last break of `s`: the beginning of a line whose end
/// has not arrived yet.
pub open spec fn unfinished<T>(s: Seq<T>, cr: T, lf: T) -> Seq<T>
    decreases s.len(),
{
    let i = first_break(s, cr, lf);
    if 0 <= i && i + 1 < s.len() {
        unfinished(s.skip(i + 2), cr, lf)
    } else {
        s
    }
}

/// Lines do not depend on where the input was cut: the complete lines of
/// `s` followed by `more` are those of `s`, then those of what `s` left
/// unfinished followed by `more`; and the same is left unfinished.
pub proof fn lemma_lines_append<T>(s: Seq<T>, more: Seq<T>, cr: T, lf: T)
    ensures
        complete_lines(s + more, cr, lf) == complete_lines(s, cr, lf) + complete_lines(
            unfinished(s, cr, lf) + more,
            cr,
            lf,
        ),
        unfinished(s + more, cr, lf) == unfinished(unfinished(s, cr, lf) + more, cr, lf),
    decreases s.len(),
{
    lemma_first_break(s, cr, lf);
    let i = first_break(s, cr, lf);
    if i + 1 < s.len() {
        let whole = s + more;
        assert forall|j: int| 0 <= j < i implies !break_at(whole, cr, lf, j) by {
            assert(!break_at(s, cr, lf, j));
            assert(whole[j] == s[j]);
            assert(whole[j + 1] == s[j + 1]);
        }
        assert(whole[i] == s[i]);
        assert(whole[i + 1] == s[i + 1]);
        lemma_first_break_unique(whole, cr, lf, i);
        assert(whole.take(i) == s.take(i));
        assert(whole.skip(i + 2) == s.skip(i + 2) + more);
        lemma_lines_append(s.skip(i + 2), more, cr, lf);
        let first = seq![s.take(i)];
        let later = complete_lines(s.skip(i + 2), cr, lf);
        let last = complete_lines(unfinished(s, cr, lf) + more, cr, lf);
        assert(first + (later + last) == (first + later) + last);
    } else {
        assert(complete_lines(s, cr, lf) + complete_lines(s + more, cr, lf) == complete_lines(
            s + more,
            cr,
            lf,
        ));
    }
}

} // verus!
