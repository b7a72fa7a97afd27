use vstd::prelude::*;

use crate::cursors::Cursor;
use crate::weave::{
    count_at, count_before, lemma_count_at_prefix, lemma_count_before_mono, lemma_count_before_step,
    lemma_count_before_zero,
};

verus! {

/// Applies the line breaks of the first `j` cursors that stand at `(p, y)`
/// to the finished pieces `done` and the piece in progress `cur`.
pub open spec fn breaks_at(
    done: Seq<Seq<char>>,
    cur: Seq<char>,
    cs: Seq<Cursor>,
    y: int,
    p: int,
    j: int,
) -> (Seq<Seq<char>>, Seq<char>)
    decreases j,
{
    if j <= 0 {
        (done, cur)
    } else {
        let (d, c) = breaks_at(done, cur, cs, y, p, j - 1);
        if cs[j - 1].y == y && cs[j - 1].x == p {
            (d.push(c), Seq::empty())
        } else {
            (d, c)
        }
    }
}

/// Line `y` cut before each cursor's column, up to column `p`: the
/// finished pieces and the piece in progress.
pub open spec fn split_upto(line: Seq<char>, cs: Seq<Cursor>, y: int, p: int) -> (Seq<Seq<char>>, Seq<char>)
    decreases p,
{
    let (d, c) = if p <= 0 {
        (Seq::<Seq<char>>::empty(), Seq::<char>::empty())
    } else {
        let (d0, c0) = split_upto(line, cs, y, p - 1);
        (d0, c0.push(line[p - 1]))
    };
    breaks_at(d, c, cs, y, p, cs.len() as int)
}

/// Line `y` cut into pieces before the column of every cursor on it; a
/// column with several cursors gives empty pieces between them.
pub open spec fn pieces(line: Seq<char>, cs: Seq<Cursor>, y: int) -> Seq<Seq<char>> {
    let (d, c) = split_upto(line, cs, y, line.len() as int);
    d.push(c)
}

/// The pieces of the first `k` lines, in order.
pub open spec fn broken_upto(text: Seq<Seq<char>>, cs: Seq<Cursor>, k: int) -> Seq<Seq<char>>
    decreases k,
{
    if k <= 0 {
        Seq::empty()
    } else {
        broken_upto(text, cs, k - 1) + pieces(text[k - 1], cs, k - 1)
    }
}

/// The document after a line break at every cursor.
pub open spec fn broken_text(text: Seq<Seq<char>>, cs: Seq<Cursor>) -> Seq<Seq<char>> {
    broken_upto(text, cs, text.len() as int)
}

/// How many of the first `n` cursors stand on a line above line `k`.
pub open spec fn count_above(cs: Seq<Cursor>, k: int, n: int) -> nat
    decreases n,
{
    if n <= 0 {
        0
    } else {
        count_above(cs, k, n - 1) + if cs[n - 1].y < k { 1nat } else { 0nat }
    }
}

/// How many of the first `n` cursors stand on line `y`.
pub open spec fn count_on(cs: Seq<Cursor>, y: int, n: int) -> nat
    decreases n,
{
    if n <= 0 {
        0
    } else {
        count_on(cs, y, n - 1) + if cs[n - 1].y == y { 1nat } else { 0nat }
    }
}

/// Where a line break at every cursor leaves cursor `i`: at the start of
/// the piece that its break began, below every piece cut before it.
pub open spec fn broken_cursor(cs: Seq<Cursor>, i: int) -> Cursor {
    let n = cs.len() as int;
    let y = cs[i].y as int;
    let x = cs[i].x as int;
    Cursor {
        x: 0,
        y: (y + count_above(cs, y, n) + count_before(cs, y, x, n) + count_at(cs, y, x, i) + 1) as usize,
    }
}

pub(crate) proof fn lemma_breaks_at_len(
    done: Seq<Seq<char>>,
    cur: Seq<char>,
    cs: Seq<Cursor>,
    y: int,
    p: int,
    j: int,
)
    ensures
        breaks_at(done, cur, cs, y, p, j).0.len() == done.len() + count_at(cs, y, p, j),
    decreases j,
{
    if j > 0 {
        lemma_breaks_at_len(done, cur, cs, y, p, j - 1);
    }
}

pub(crate) proof fn lemma_split_upto_len(line: Seq<char>, cs: Seq<Cursor>, y: int, p: int)
    requires
        p >= 0,
    ensures
        split_upto(line, cs, y, p).0.len() == count_before(cs, y, p + 1, cs.len() as int),
    decreases p,
{
    let n = cs.len() as int;
    lemma_count_before_step(cs, y, p, n);
    if p == 0 {
        lemma_count_before_zero(cs, y, n);
        lemma_breaks_at_len(Seq::empty(), Seq::empty(), cs, y, p, n);
    } else {
        lemma_split_upto_len(line, cs, y, p - 1);
        let (d0, c0) = split_upto(line, cs, y, p - 1);
        lemma_breaks_at_len(d0, c0.push(line[p - 1]), cs, y, p, n);
    }
}

proof fn lemma_count_before_all(cs: Seq<Cursor>, y: int, len: int, n: int)
    requires
        0 <= n <= cs.len(),
        forall|j: int| 0 <= j < n && cs[j].y == y ==> cs[j].x <= len,
    ensures
        count_before(cs, y, len + 1, n) == count_on(cs, y, n),
    decreases n,
{
    if n > 0 {
        lemma_count_before_all(cs, y, len, n - 1);
    }
}

proof fn lemma_count_above_step(cs: Seq<Cursor>, k: int, n: int)
    ensures
        count_above(cs, k + 1, n) == count_above(cs, k, n) + count_on(cs, k, n),
    decreases n,
{
    if n > 0 {
        lemma_count_above_step(cs, k, n - 1);
    }
}

pub(crate) proof fn lemma_count_above_zero(cs: Seq<Cursor>, n: int)
    ensures
        count_above(cs, 0, n) == 0,
    decreases n,
{
    if n > 0 {
        lemma_count_above_zero(cs, n - 1);
    }
}

/// With every cursor within its line, the pieces of line `y` number one
/// more than the cursors on it.
pub(crate) proof fn lemma_pieces_len(line: Seq<char>, cs: Seq<Cursor>, y: int)
    requires
        forall|j: int| 0 <= j < cs.len() && cs[j].y == y ==> cs[j].x <= line.len(),
    ensures
        pieces(line, cs, y).len() == 1 + count_on(cs, y, cs.len() as int),
{
    lemma_split_upto_len(line, cs, y, line.len() as int);
    lemma_count_before_all(cs, y, line.len() as int, cs.len() as int);
}

pub(crate) proof fn lemma_broken_upto_len(text: Seq<Seq<char>>, cs: Seq<Cursor>, k: int)
    requires
        0 <= k <= text.len(),
        forall|j: int| 0 <= j < cs.len() ==> #[trigger] cs[j].valid_in(text),
    ensures
        broken_upto(text, cs, k).len() == k + count_above(cs, k, cs.len() as int),
    decreases k,
{
    let n = cs.len() as int;
    if k == 0 {
        lemma_count_above_zero(cs, n);
    } else {
        lemma_broken_upto_len(text, cs, k - 1);
        assert forall|j: int| 0 <= j < cs.len() && cs[j].y == k - 1 implies cs[j].x <= text[k - 1].len() by {
            assert(cs[j].valid_in(text));
        }
        lemma_pieces_len(text[k - 1], cs, k - 1);
        lemma_count_above_step(cs, k - 1, n);
    }
}

proof fn lemma_count_above_mono(cs: Seq<Cursor>, k1: int, k2: int, n: int)
    requires
        k1 <= k2,
    ensures
        count_above(cs, k1, n) <= count_above(cs, k2, n),
    decreases n,
{
    if n > 0 {
        lemma_count_above_mono(cs, k1, k2, n - 1);
    }
}

/// After a line break at every valid cursor, each cursor stands on a line
/// of the new document.
pub(crate) proof fn lemma_broken_cursor_bound(text: Seq<Seq<char>>, cs: Seq<Cursor>, i: int)
    requires
        0 <= i < cs.len(),
        forall|j: int| 0 <= j < cs.len() ==> #[trigger] cs[j].valid_in(text),
    ensures
        broken_cursor(cs, i).y < text.len() + count_above(cs, text.len() as int, cs.len() as int),
{
    let n = cs.len() as int;
    let y = cs[i].y as int;
    let x = cs[i].x as int;
    assert(cs[i].valid_in(text));
    let len = text[y].len() as int;
    lemma_count_at_prefix(cs, y, x, i + 1, n);
    lemma_count_before_step(cs, y, x, n);
    lemma_count_before_mono(cs, y, x + 1, len + 1, n);
    assert forall|j: int| 0 <= j < n && cs[j].y == y implies cs[j].x <= len by {
        assert(cs[j].valid_in(text));
    }
    lemma_count_before_all(cs, y, len, n);
    lemma_count_above_step(cs, y, n);
    lemma_count_above_mono(cs, y + 1, text.len() as int, n);
}

proof fn lemma_count_above_all(text: Seq<Seq<char>>, cs: Seq<Cursor>, n: int)
    requires
        0 <= n <= cs.len(),
        forall|j: int| 0 <= j < cs.len() ==> #[trigger] cs[j].valid_in(text),
    ensures
        count_above(cs, text.len() as int, n) == n,
    decreases n,
{
    if n > 0 {
        assert(cs[n - 1].valid_in(text));
        lemma_count_above_all(text, cs, n - 1);
    }
}

/// A line break at every valid cursor adds exactly one line per cursor.
pub proof fn lemma_broken_text_len(text: Seq<Seq<char>>, cs: Seq<Cursor>)
    requires
        forall|j: int| 0 <= j < cs.len() ==> #[trigger] cs[j].valid_in(text),
    ensures
        broken_text(text, cs).len() == text.len() + cs.len(),
{
    lemma_broken_upto_len(text, cs, text.len() as int);
    lemma_count_above_all(text, cs, cs.len() as int);
}

} // verus!
