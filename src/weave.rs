use vstd::prelude::*;

use crate::cursors::Cursor;

verus! {

/// How many of the first `n` cursors stand exactly at `(x, y)`.
pub open spec fn count_at(cs: Seq<Cursor>, y: int, x: int, n: int) -> nat
    decreases n,
{
    if n <= 0 {
        0
    } else {
        count_at(cs, y, x, n - 1) + if cs[n - 1].y == y && cs[n - 1].x == x { 1nat } else { 0nat }
    }
}

/// How many of the first `n` cursors stand on line `y` left of column `x`.
pub open spec fn count_before(cs: Seq<Cursor>, y: int, x: int, n: int) -> nat
    decreases n,
{
    if n <= 0 {
        0
    } else {
        count_before(cs, y, x, n - 1) + if cs[n - 1].y == y && cs[n - 1].x < x { 1nat } else { 0nat }
    }
}

/// The marks of the first `n` cursors that stand at `(x, y)`, in the order
/// of the cursors.
pub open spec fn marks_at<A>(cs: Seq<Cursor>, marks: Seq<A>, y: int, x: int, n: int) -> Seq<A>
    decreases n,
{
    if n <= 0 {
        Seq::empty()
    } else {
        marks_at(cs, marks, y, x, n - 1) + if cs[n - 1].y == y && cs[n - 1].x == x {
            seq![marks[n - 1]]
        } else {
            Seq::empty()
        }
    }
}

/// The items of `line` before column `p`, with each cursor's mark placed
/// before the column it stands at, columns up to `p` included.
pub open spec fn woven_upto<A>(line: Seq<A>, cs: Seq<Cursor>, marks: Seq<A>, y: int, p: int) -> Seq<A>
    decreases p,
{
    if p <= 0 {
        marks_at(cs, marks, y, 0, cs.len() as int)
    } else {
        woven_upto(line, cs, marks, y, p - 1) + seq![line[p - 1]] + marks_at(cs, marks, y, p, cs.len() as int)
    }
}

/// `line` with the mark of every cursor on line `y` placed before the
/// column the cursor stands at; marks at one column keep the cursors' order.
pub open spec fn woven<A>(line: Seq<A>, cs: Seq<Cursor>, marks: Seq<A>, y: int) -> Seq<A> {
    woven_upto(line, cs, marks, y, line.len() as int)
}

/// Where cursor `i`'s mark lands in the woven line: its column, moved on by
/// every mark placed before it.
pub open spec fn mark_index(cs: Seq<Cursor>, i: int) -> int {
    cs[i].x + count_before(cs, cs[i].y as int, cs[i].x as int, cs.len() as int)
        + count_at(cs, cs[i].y as int, cs[i].x as int, i)
}

pub(crate) proof fn lemma_marks_at_len<A>(cs: Seq<Cursor>, marks: Seq<A>, y: int, x: int, n: int)
    ensures
        marks_at(cs, marks, y, x, n).len() == count_at(cs, y, x, n),
    decreases n,
{
    if n > 0 {
        lemma_marks_at_len(cs, marks, y, x, n - 1);
    }
}

pub(crate) proof fn lemma_count_before_step(cs: Seq<Cursor>, y: int, x: int, n: int)
    ensures
        count_before(cs, y, x + 1, n) == count_before(cs, y, x, n) + count_at(cs, y, x, n),
    decreases n,
{
    if n > 0 {
        lemma_count_before_step(cs, y, x, n - 1);
    }
}

pub(crate) proof fn lemma_count_before_bound(cs: Seq<Cursor>, y: int, x: int, n: int)
    requires
        n >= 0,
    ensures
        count_before(cs, y, x, n) <= n,
    decreases n,
{
    if n > 0 {
        lemma_count_before_bound(cs, y, x, n - 1);
    }
}

pub(crate) proof fn lemma_count_before_zero(cs: Seq<Cursor>, y: int, n: int)
    ensures
        count_before(cs, y, 0, n) == 0,
    decreases n,
{
    if n > 0 {
        lemma_count_before_zero(cs, y, n - 1);
    }
}

proof fn lemma_woven_upto_len<A>(line: Seq<A>, cs: Seq<Cursor>, marks: Seq<A>, y: int, p: int)
    requires
        p >= 0,
    ensures
        woven_upto(line, cs, marks, y, p).len() == p + count_before(cs, y, p + 1, cs.len() as int),
    decreases p,
{
    let n = cs.len() as int;
    lemma_marks_at_len(cs, marks, y, p, n);
    lemma_count_before_step(cs, y, p, n);
    if p == 0 {
        lemma_count_before_zero(cs, y, n);
    } else {
        lemma_woven_upto_len(line, cs, marks, y, p - 1);
    }
}

pub(crate) proof fn lemma_count_at_prefix(cs: Seq<Cursor>, y: int, x: int, k: int, n: int)
    requires
        0 <= k <= n,
    ensures
        count_at(cs, y, x, k) <= count_at(cs, y, x, n),
    decreases n,
{
    if n > k {
        lemma_count_at_prefix(cs, y, x, k, n - 1);
    }
}

pub(crate) proof fn lemma_count_before_mono(cs: Seq<Cursor>, y: int, x1: int, x2: int, n: int)
    requires
        x1 <= x2,
    ensures
        count_before(cs, y, x1, n) <= count_before(cs, y, x2, n),
    decreases n,
{
    if n > 0 {
        lemma_count_before_mono(cs, y, x1, x2, n - 1);
    }
}

/// A cursor within its line has its mark inside the woven line.
pub proof fn lemma_mark_index_bound<A>(line: Seq<A>, cs: Seq<Cursor>, marks: Seq<A>, i: int)
    requires
        0 <= i < cs.len(),
        cs[i].x <= line.len(),
    ensures
        0 <= mark_index(cs, i) < woven(line, cs, marks, cs[i].y as int).len(),
{
    let n = cs.len() as int;
    let y = cs[i].y as int;
    let x = cs[i].x as int;
    lemma_woven_upto_len(line, cs, marks, y, line.len() as int);
    lemma_count_at_prefix(cs, y, x, i + 1, n);
    lemma_count_before_step(cs, y, x, n);
    lemma_count_before_mono(cs, y, x + 1, line.len() as int + 1, n);
}

proof fn lemma_marks_at_index<A>(cs: Seq<Cursor>, marks: Seq<A>, y: int, x: int, i: int, n: int)
    requires
        0 <= i < n <= cs.len(),
        cs[i].y == y,
        cs[i].x == x,
    ensures
        count_at(cs, y, x, i) < marks_at(cs, marks, y, x, n).len(),
        marks_at(cs, marks, y, x, n)[count_at(cs, y, x, i) as int] == marks[i],
    decreases n,
{
    lemma_marks_at_len(cs, marks, y, x, n - 1);
    if i < n - 1 {
        lemma_marks_at_index(cs, marks, y, x, i, n - 1);
    }
}

proof fn lemma_woven_upto_prefix<A>(line: Seq<A>, cs: Seq<Cursor>, marks: Seq<A>, y: int, p: int, q: int)
    requires
        0 <= p <= q,
    ensures
        woven_upto(line, cs, marks, y, p).len() <= woven_upto(line, cs, marks, y, q).len(),
        forall|k: int| 0 <= k < woven_upto(line, cs, marks, y, p).len() ==>
            woven_upto(line, cs, marks, y, q)[k] == #[trigger] woven_upto(line, cs, marks, y, p)[k],
    decreases q,
{
    if q > p {
        lemma_woven_upto_prefix(line, cs, marks, y, p, q - 1);
    }
}

/// Each cursor's mark stands in the woven line at the index `mark_index`
/// gives: where its column was, moved on by the marks placed before it.
pub proof fn lemma_mark_lands<A>(line: Seq<A>, cs: Seq<Cursor>, marks: Seq<A>, i: int)
    requires
        0 <= i < cs.len(),
        cs[i].x <= line.len(),
    ensures
        woven(line, cs, marks, cs[i].y as int)[mark_index(cs, i)] == marks[i],
{
    let n = cs.len() as int;
    let y = cs[i].y as int;
    let x = cs[i].x as int;
    lemma_marks_at_index(cs, marks, y, x, i, n);
    if x > 0 {
        lemma_woven_upto_len(line, cs, marks, y, x - 1);
    } else {
        lemma_count_before_zero(cs, y, n);
    }
    let w = woven_upto(line, cs, marks, y, x);
    assert(w[mark_index(cs, i)] == marks[i]);
    lemma_woven_upto_prefix(line, cs, marks, y, x, line.len() as int);
}

/// The woven line holds the line's items and one mark per cursor on it
/// that stands left of column `line.len() + 1`.
pub(crate) proof fn lemma_woven_len<A>(line: Seq<A>, cs: Seq<Cursor>, marks: Seq<A>, y: int)
    ensures
        woven(line, cs, marks, y).len() == line.len() + count_before(cs, y, line.len() as int + 1, cs.len() as int),
        woven(line, cs, marks, y).len() <= line.len() + cs.len(),
{
    lemma_woven_upto_len(line, cs, marks, y, line.len() as int);
    lemma_count_before_bound(cs, y, line.len() as int + 1, cs.len() as int);
}

/// Places `marks[j]` before column `cursors[j].x` of `line`, for every cursor
/// on line `y`, walking the columns left to right; at one column the cursors
/// go in their order. Returns the woven line and, for each cursor on line
/// `y`, the index just past its mark.
pub fn weave<A: Copy>(line: &Vec<A>, cursors: &Vec<Cursor>, marks: &Vec<A>, y: usize) -> (r: (Vec<A>, Vec<usize>))
    requires
        marks@.len() == cursors@.len(),
        forall|j: int| 0 <= j < cursors@.len() && cursors@[j].y == y ==> cursors@[j].x <= line@.len(),
        line@.len() + cursors@.len() < usize::MAX,
    ensures
        r.0@ == woven(line@, cursors@, marks@, y as int),
        r.1@.len() == cursors@.len(),
        forall|j: int| 0 <= j < cursors@.len() && cursors@[j].y == y ==>
            r.1@[j] == mark_index(cursors@, j) + 1,
{
    let ghost cs = cursors@;
    let ghost n = cs.len() as int;
    let mut out: Vec<A> = Vec::new();
    let mut ends: Vec<usize> = Vec::new();
    let mut j: usize = 0;
    while j < cursors.len()
        invariant
            j <= cursors@.len(),
            ends@.len() == j,
        decreases cursors@.len() - j,
    {
        ends.push(0);
        j = j + 1;
    }
    let mut p: usize = 0;
    while p <= line.len()
        invariant
            cs == cursors@,
            n == cs.len(),
            marks@.len() == n,
            line@.len() + n < usize::MAX,
            forall|j: int| 0 <= j < n && cs[j].y == y ==> cs[j].x <= line@.len(),
            p <= line@.len() + 1,
            ends@.len() == n,
            p == 0 ==> out@ == Seq::<A>::empty(),
            p > 0 ==> out@ == woven_upto(line@, cs, marks@, y as int, p - 1),
            forall|j: int| 0 <= j < n && cs[j].y == y && cs[j].x < p ==>
                ends@[j] == mark_index(cs, j) + 1,
        decreases line@.len() + 1 - p,
    {
        if p > 0 {
            out.push(line[p - 1]);
        }
        let ghost base = out@;
        proof {
            if p > 0 {
                lemma_woven_upto_len(line@, cs, marks@, y as int, p - 1);
                lemma_count_before_step(cs, y as int, p as int, n);
                assert(base.len() == p + count_before(cs, y as int, p as int, n));
            } else {
                lemma_count_before_zero(cs, y as int, n);
            }
            lemma_count_before_step(cs, y as int, p as int, n);
            lemma_count_at_prefix(cs, y as int, p as int, 0, n);
            lemma_count_before_bound(cs, y as int, p as int + 1, n);
        }
        let mut j: usize = 0;
        while j < cursors.len()
            invariant
                cs == cursors@,
                n == cs.len(),
                marks@.len() == n,
                line@.len() + n < usize::MAX,
                p <= line@.len(),
                j <= n,
                ends@.len() == n,
                base.len() == p + count_before(cs, y as int, p as int, n),
                count_before(cs, y as int, p as int + 1, n) == count_before(cs, y as int, p as int, n) + count_at(cs, y as int, p as int, n),
                count_before(cs, y as int, p as int + 1, n) <= n,
                out@ == base + marks_at(cs, marks@, y as int, p as int, j as int),
                forall|k: int| 0 <= k < n && cs[k].y == y && cs[k].x < p ==>
                    ends@[k] == mark_index(cs, k) + 1,
                forall|k: int| 0 <= k < j && cs[k].y == y && cs[k].x == p ==>
                    ends@[k] == mark_index(cs, k) + 1,
            decreases n - j,
        {
            proof {
                lemma_marks_at_len(cs, marks@, y as int, p as int, j as int);
                lemma_count_at_prefix(cs, y as int, p as int, j as int + 1, n);
            }
            if cursors[j].y == y && cursors[j].x == p {
                out.push(marks[j]);
                ends.set(j, out.len());
            }
            j = j + 1;
        }
        assert(out@ =~= woven_upto(line@, cs, marks@, y as int, p as int));
        p = p + 1;
    }
    (out, ends)
}

} // verus!
