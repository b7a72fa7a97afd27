use vstd::prelude::*;

use crate::buffer::{lines_of, TextBuffer};
use crate::cursors::{
    backspace_cursor, backspace_text, clamped, down_of, left_of, right_of, up_of, Cursor,
};
use crate::split::{
    breaks_at, broken_cursor, broken_text, broken_upto, count_above, lemma_breaks_at_len,
    lemma_broken_cursor_bound, lemma_broken_upto_len, lemma_split_upto_len, split_upto,
};
use crate::weave::{
    count_before, lemma_count_before_zero, lemma_mark_index_bound, lemma_mark_lands, mark_index, weave,
    woven,
};

verus! {

/// Every cursor of `cs` valid in `text`.
pub open spec fn all_valid(text: Seq<Seq<char>>, cs: Seq<Cursor>) -> bool {
    forall|i: int| 0 <= i < cs.len() ==> #[trigger] cs[i].valid_in(text)
}

/// The document after typing `ch` through every cursor: on each line, one
/// `ch` before the column of each cursor on it.
pub open spec fn typed_text(text: Seq<Seq<char>>, cs: Seq<Cursor>, ch: char) -> Seq<Seq<char>> {
    Seq::new(text.len(), |y: int| woven(text[y], cs, Seq::new(cs.len(), |j: int| ch), y))
}

/// Where typing through every cursor leaves cursor `i`: just past its own
/// character.
pub open spec fn typed_cursor(cs: Seq<Cursor>, i: int) -> Cursor {
    Cursor { x: (mark_index(cs, i) + 1) as usize, y: cs[i].y }
}

/// Document and cursors after backspacing through the first `i` cursors in
/// order, each first clamped onto the document as it then stands.
pub open spec fn backspaced(text: Seq<Seq<char>>, cs: Seq<Cursor>, i: int) -> (Seq<Seq<char>>, Seq<Cursor>)
    decreases i,
{
    if i <= 0 {
        (text, cs)
    } else {
        let (t, c) = backspaced(text, cs, i - 1);
        let k = clamped(t, c[i - 1]);
        (backspace_text(t, k), c.update(i - 1, backspace_cursor(t, k)))
    }
}

/// The edit points of a buffer; the first is the primary cursor, the only
/// one that navigation moves.
#[derive(Debug)]
pub struct CursorSet {
    pub cursors: Vec<Cursor>,
}

impl CursorSet {
    /// There is always a primary cursor.
    pub open spec fn wf(&self) -> bool {
        self.cursors@.len() >= 1
    }

    /// One cursor, at the start of the document.
    pub fn new() -> (r: Self)
        ensures
            r.wf(),
            r.cursors@ == seq![Cursor { x: 0, y: 0 }],
    {
        let mut cursors: Vec<Cursor> = Vec::new();
        cursors.push(Cursor { x: 0, y: 0 });
        let r = CursorSet { cursors };
        assert(r.cursors@ =~= seq![Cursor { x: 0, y: 0 }]);
        r
    }

    /// The primary cursor.
    pub fn primary(&self) -> (r: Cursor)
        requires
            self.wf(),
        ensures
            r == self.cursors@[0],
    {
        self.cursors[0]
    }

    /// Adds a secondary cursor where the primary stands.
    pub fn duplicate_primary(&mut self)
        requires
            old(self).wf(),
        ensures
            final(self).wf(),
            final(self).cursors@ == old(self).cursors@.push(old(self).cursors@[0]),
    {
        let c = self.cursors[0];
        self.cursors.push(c);
    }

    /// Drops every secondary cursor; the primary stays where it is.
    pub fn collapse(&mut self)
        requires
            old(self).wf(),
        ensures
            final(self).wf(),
            final(self).cursors@ == old(self).cursors@.take(1),
    {
        self.cursors.truncate(1);
        assert(self.cursors@ =~= old(self).cursors@.take(1));
    }

    /// Moves the primary cursor left.
    pub fn move_left(&mut self, buffer: &TextBuffer)
        requires
            old(self).wf(),
            buffer.wf(),
            all_valid(buffer.text(), old(self).cursors@),
        ensures
            final(self).cursors@ == old(self).cursors@.update(0, left_of(buffer.text(), old(self).cursors@[0])),
            final(self).wf(),
            all_valid(buffer.text(), final(self).cursors@),
    {
        let mut c = self.cursors[0];
        c.move_left(buffer);
        self.cursors.set(0, c);
    }

    /// Moves the primary cursor right.
    pub fn move_right(&mut self, buffer: &TextBuffer)
        requires
            old(self).wf(),
            buffer.wf(),
            all_valid(buffer.text(), old(self).cursors@),
        ensures
            final(self).cursors@ == old(self).cursors@.update(0, right_of(buffer.text(), old(self).cursors@[0])),
            final(self).wf(),
            all_valid(buffer.text(), final(self).cursors@),
    {
        let mut c = self.cursors[0];
        c.move_right(buffer);
        self.cursors.set(0, c);
    }

    /// Moves the primary cursor up.
    pub fn move_up(&mut self, buffer: &TextBuffer)
        requires
            old(self).wf(),
            buffer.wf(),
            all_valid(buffer.text(), old(self).cursors@),
        ensures
            final(self).cursors@ == old(self).cursors@.update(0, up_of(buffer.text(), old(self).cursors@[0])),
            final(self).wf(),
            all_valid(buffer.text(), final(self).cursors@),
    {
        let mut c = self.cursors[0];
        c.move_up(buffer);
        self.cursors.set(0, c);
    }

    /// Moves the primary cursor down.
    pub fn move_down(&mut self, buffer: &TextBuffer)
        requires
            old(self).wf(),
            buffer.wf(),
            all_valid(buffer.text(), old(self).cursors@),
        ensures
            final(self).cursors@ == old(self).cursors@.update(0, down_of(buffer.text(), old(self).cursors@[0])),
            final(self).wf(),
            all_valid(buffer.text(), final(self).cursors@),
    {
        let mut c = self.cursors[0];
        c.move_down(buffer);
        self.cursors.set(0, c);
    }
    /// Types `ch` through every cursor. On a line with several cursors they
    /// are taken by ascending column, and each goes on by the characters
    /// already typed to its left in this batch, so that every character lands
    /// where its cursor stood; each cursor ends just past its character.
    pub fn insert_char(&mut self, buffer: &mut TextBuffer, ch: char)
        requires
            old(self).wf(),
            old(buffer).wf(),
            all_valid(old(buffer).text(), old(self).cursors@),
            forall|y: int| 0 <= y < old(buffer).lines@.len() ==>
                #[trigger] old(buffer).lines@[y]@.len() + old(self).cursors@.len() < usize::MAX,
        ensures
            final(self).wf(),
            final(buffer).wf(),
            final(buffer).text() == typed_text(old(buffer).text(), old(self).cursors@, ch),
            final(self).cursors@.len() == old(self).cursors@.len(),
            forall|i: int| 0 <= i < old(self).cursors@.len() ==>
                #[trigger] final(self).cursors@[i] == typed_cursor(old(self).cursors@, i),
            all_valid(final(buffer).text(), final(self).cursors@),
            final(buffer).path == old(buffer).path,
            final(buffer).view_start == old(buffer).view_start,
    {
        let ghost t0 = buffer.text();
        let ghost cs = self.cursors@;
        let n = self.cursors.len();
        let mut marks: Vec<char> = Vec::new();
        let mut newx: Vec<usize> = Vec::new();
        let mut j: usize = 0;
        while j < n
            invariant
                j <= n,
                n == cs.len(),
                marks@ == Seq::new(j as nat, |k: int| ch),
                newx@.len() == j,
            decreases n - j,
        {
            marks.push(ch);
            newx.push(0);
            j = j + 1;
        }
        let ghost ms = marks@;
        assert(ms =~= Seq::new(cs.len(), |k: int| ch));
        let mut y: usize = 0;
        while y < buffer.lines.len()
            invariant
                buffer.wf(),
                buffer.lines@.len() == t0.len(),
                cs == self.cursors@,
                n == cs.len(),
                ms == marks@,
                ms == Seq::new(cs.len(), |k: int| ch),
                all_valid(t0, cs),
                y <= t0.len(),
                newx@.len() == n,
                forall|k: int| 0 <= k < y ==> #[trigger] buffer.text()[k] == woven(t0[k], cs, ms, k),
                forall|k: int| y <= k < t0.len() ==> #[trigger] buffer.text()[k] == t0[k],
                forall|k: int| y <= k < t0.len() ==> #[trigger] buffer.lines@[k]@.len() + n < usize::MAX,
                forall|i: int| 0 <= i < n && cs[i].y < y ==> #[trigger] newx@[i] == mark_index(cs, i) + 1,
                buffer.path == old(buffer).path,
                buffer.view_start == old(buffer).view_start,
            decreases t0.len() - y,
        {
            assert(buffer.text()[y as int] == t0[y as int]);
            assert(buffer.lines@[y as int]@.len() + n < usize::MAX);
            assert forall|j: int| 0 <= j < n && cs[j].y == y implies cs[j].x <= buffer.lines@[y as int]@.len() by {
                assert(cs[j].valid_in(t0));
            }
            let (out, ends) = weave(&buffer.lines[y], &self.cursors, &marks, y);
            let ghost before = buffer.text();
            buffer.lines.set(y, out);
            assert(buffer.text() =~= before.update(y as int, woven(t0[y as int], cs, ms, y as int)));
            let mut i: usize = 0;
            while i < n
                invariant
                    i <= n,
                    n == cs.len(),
                    cs == self.cursors@,
                    newx@.len() == n,
                    ends@.len() == n,
                    forall|k: int| 0 <= k < n && cs[k].y == y ==> ends@[k] == mark_index(cs, k) + 1,
                    forall|k: int| 0 <= k < n && cs[k].y < y ==> #[trigger] newx@[k] == mark_index(cs, k) + 1,
                    forall|k: int| 0 <= k < i && cs[k].y == y ==> #[trigger] newx@[k] == mark_index(cs, k) + 1,
                decreases n - i,
            {
                if self.cursors[i].y == y {
                    newx.set(i, ends[i]);
                }
                i = i + 1;
            }
            y = y + 1;
        }
        let ghost t1 = buffer.text();
        assert forall|k: int| 0 <= k < n implies #[trigger] newx@[k] == mark_index(cs, k) + 1 by {
            assert(cs[k].valid_in(t0));
        }
        assert(t1 =~= typed_text(t0, cs, ch));
        let mut i: usize = 0;
        while i < n
            invariant
                i <= n,
                n == cs.len(),
                self.cursors@.len() == n,
                newx@.len() == n,
                all_valid(t0, cs),
                forall|k: int| 0 <= k < n ==> #[trigger] newx@[k] == mark_index(cs, k) + 1,
                forall|k: int| 0 <= k < i ==> #[trigger] self.cursors@[k] == typed_cursor(cs, k),
                forall|k: int| i <= k < n ==> #[trigger] self.cursors@[k] == cs[k],
            decreases n - i,
        {
            let c = Cursor { x: newx[i], y: self.cursors[i].y };
            self.cursors.set(i, c);
            i = i + 1;
        }
        assert forall|i: int| 0 <= i < cs.len() implies #[trigger] self.cursors@[i].valid_in(t1) by {
            assert(cs[i].valid_in(t0));
            lemma_mark_index_bound(t0[cs[i].y as int], cs, ms, i);
        }
    }

    /// Backspaces through every cursor in the set's order, each first
    /// clamped onto the document as the earlier ones left it; at the end
    /// every cursor is clamped again.
    pub fn backspace(&mut self, buffer: &mut TextBuffer)
        requires
            old(self).wf(),
            old(buffer).wf(),
        ensures
            final(self).wf(),
            final(buffer).wf(),
            final(buffer).text() == backspaced(old(buffer).text(), old(self).cursors@, old(self).cursors@.len() as int).0,
            final(self).cursors@.len() == old(self).cursors@.len(),
            forall|i: int| 0 <= i < old(self).cursors@.len() ==>
                #[trigger] final(self).cursors@[i] == clamped(final(buffer).text(),
                    backspaced(old(buffer).text(), old(self).cursors@, old(self).cursors@.len() as int).1[i]),
            all_valid(final(buffer).text(), final(self).cursors@),
            final(buffer).path == old(buffer).path,
            final(buffer).view_start == old(buffer).view_start,
    {
        let ghost t0 = buffer.text();
        let ghost cs = self.cursors@;
        let n = self.cursors.len();
        let mut i: usize = 0;
        while i < n
            invariant
                i <= n,
                n == cs.len(),
                buffer.wf(),
                (buffer.text(), self.cursors@) == backspaced(t0, cs, i as int),
                self.cursors@.len() == n,
                buffer.path == old(buffer).path,
                buffer.view_start == old(buffer).view_start,
            decreases n - i,
        {
            let mut c = self.cursors[i];
            c.clamp(buffer);
            c.backspace(buffer);
            self.cursors.set(i, c);
            i = i + 1;
        }
        self.clamp_all(buffer);
    }

    /// Breaks the line at every cursor, in one pass down the document. The
    /// outcome is that of taking the cursors from the bottom up, so that no
    /// break shifts a line another cursor has yet to break: every cursor ends
    /// at the start of the piece its break began, below all the lines that
    /// the breaks above it added.
    pub fn insert_newline(&mut self, buffer: &mut TextBuffer)
        requires
            old(self).wf(),
            old(buffer).wf(),
            all_valid(old(buffer).text(), old(self).cursors@),
            old(buffer).lines@.len() + old(self).cursors@.len() < usize::MAX,
            forall|y: int| 0 <= y < old(buffer).lines@.len() ==> #[trigger] old(buffer).lines@[y]@.len() < usize::MAX,
        ensures
            final(self).wf(),
            final(buffer).wf(),
            final(buffer).text() == broken_text(old(buffer).text(), old(self).cursors@),
            final(self).cursors@.len() == old(self).cursors@.len(),
            forall|i: int| 0 <= i < old(self).cursors@.len() ==>
                #[trigger] final(self).cursors@[i] == broken_cursor(old(self).cursors@, i),
            all_valid(final(buffer).text(), final(self).cursors@),
            final(buffer).path == old(buffer).path,
            final(buffer).view_start == old(buffer).view_start,
    {
        let ghost t0 = buffer.text();
        let ghost cs = self.cursors@;
        let n = self.cursors.len();
        let mut newy: Vec<usize> = Vec::new();
        let mut j: usize = 0;
        while j < n
            invariant
                j <= n,
                newy@.len() == j,
            decreases n - j,
        {
            newy.push(0);
            j = j + 1;
        }
        let mut out: Vec<Vec<char>> = Vec::new();
        assert(lines_of(out@) =~= broken_upto(t0, cs, 0));
        let mut y: usize = 0;
        while y < buffer.lines.len()
            invariant
                buffer.text() == t0,
                buffer.wf(),
                buffer.path == old(buffer).path,
                buffer.view_start == old(buffer).view_start,
                forall|k: int| 0 <= k < t0.len() ==> #[trigger] buffer.lines@[k]@.len() < usize::MAX,
                cs == self.cursors@,
                n == cs.len(),
                all_valid(t0, cs),
                y <= t0.len(),
                lines_of(out@) == broken_upto(t0, cs, y as int),
                newy@.len() == n,
                forall|k: int| 0 <= k < n && cs[k].y < y ==> #[trigger] newy@[k] == broken_cursor(cs, k).y,
            decreases t0.len() - y,
        {
            proof {
                lemma_broken_upto_len(t0, cs, y as int);
            }
            let line = &buffer.lines[y];
            assert(line@ == t0[y as int]);
            assert(line@.len() < usize::MAX);
            let ghost base = lines_of(out@);
            let mut cur: Vec<char> = Vec::new();
            let mut p: usize = 0;
            while p <= line.len()
                invariant
                    cs == self.cursors@,
                    n == cs.len(),
                    line@.len() < usize::MAX,
                    p <= line@.len() + 1,
                    base.len() == y + count_above(cs, y as int, n as int),
                    p == 0 ==> lines_of(out@) == base && cur@ == Seq::<char>::empty(),
                    p > 0 ==> lines_of(out@) == base + split_upto(line@, cs, y as int, p - 1).0
                        && cur@ == split_upto(line@, cs, y as int, p - 1).1,
                    newy@.len() == n,
                    forall|k: int| 0 <= k < n && cs[k].y < y ==> #[trigger] newy@[k] == broken_cursor(cs, k).y,
                    forall|k: int| 0 <= k < n && cs[k].y == y && cs[k].x < p ==>
                        #[trigger] newy@[k] == broken_cursor(cs, k).y,
                decreases line@.len() + 1 - p,
            {
                let ghost d0: Seq<Seq<char>> = if p > 0 { split_upto(line@, cs, y as int, p - 1).0 } else { Seq::empty() };
                if p > 0 {
                    cur.push(line[p - 1]);
                }
                let ghost c0 = cur@;
                proof {
                    if p > 0 {
                        lemma_split_upto_len(line@, cs, y as int, p - 1);
                    } else {
                        lemma_count_before_zero(cs, y as int, n as int);
                    }
                }
                assert(d0.len() == count_before(cs, y as int, p as int, n as int));
                let mut j: usize = 0;
                while j < n
                    invariant
                        cs == self.cursors@,
                        n == cs.len(),
                        j <= n,
                        p <= line@.len(),
                        base.len() == y + count_above(cs, y as int, n as int),
                        d0.len() == count_before(cs, y as int, p as int, n as int),
                        lines_of(out@) == base + breaks_at(d0, c0, cs, y as int, p as int, j as int).0,
                        cur@ == breaks_at(d0, c0, cs, y as int, p as int, j as int).1,
                        newy@.len() == n,
                        forall|k: int| 0 <= k < n && cs[k].y < y ==> #[trigger] newy@[k] == broken_cursor(cs, k).y,
                        forall|k: int| 0 <= k < n && cs[k].y == y && cs[k].x < p ==>
                            #[trigger] newy@[k] == broken_cursor(cs, k).y,
                        forall|k: int| 0 <= k < j && cs[k].y == y && cs[k].x == p ==>
                            #[trigger] newy@[k] == broken_cursor(cs, k).y,
                    decreases n - j,
                {
                    proof {
                        lemma_breaks_at_len(d0, c0, cs, y as int, p as int, j as int);
                    }
                    if self.cursors[j].y == y && self.cursors[j].x == p {
                        let ghost prev = out@;
                        out.push(cur);
                        cur = Vec::new();
                        assert(lines_of(out@) =~= lines_of(prev).push(breaks_at(d0, c0, cs, y as int, p as int, j as int).1));
                        newy.set(j, out.len());
                    }
                    j = j + 1;
                }
                assert(lines_of(out@) =~= base + split_upto(line@, cs, y as int, p as int).0);
                p = p + 1;
            }
            assert forall|k: int| 0 <= k < n && cs[k].y == y implies #[trigger] newy@[k] == broken_cursor(cs, k).y by {
                assert(cs[k].valid_in(t0));
            }
            let ghost prev = out@;
            out.push(cur);
            assert(lines_of(out@) =~= lines_of(prev).push(cur@));
            assert(lines_of(out@) =~= broken_upto(t0, cs, y as int + 1));
            y = y + 1;
        }
        assert forall|k: int| 0 <= k < n implies #[trigger] newy@[k] == broken_cursor(cs, k).y by {
            assert(cs[k].valid_in(t0));
        }
        buffer.lines = out;
        let mut i: usize = 0;
        while i < n
            invariant
                i <= n,
                n == cs.len(),
                self.cursors@.len() == n,
                newy@.len() == n,
                forall|k: int| 0 <= k < n ==> #[trigger] newy@[k] == broken_cursor(cs, k).y,
                forall|k: int| 0 <= k < i ==> #[trigger] self.cursors@[k] == broken_cursor(cs, k),
                forall|k: int| i <= k < n ==> #[trigger] self.cursors@[k] == cs[k],
            decreases n - i,
        {
            self.cursors.set(i, Cursor { x: 0, y: newy[i] });
            i = i + 1;
        }
        proof {
            lemma_broken_upto_len(t0, cs, t0.len() as int);
        }
        assert forall|i: int| 0 <= i < n implies #[trigger] self.cursors@[i].valid_in(buffer.text()) by {
            lemma_broken_cursor_bound(t0, cs, i);
        }
    }

    /// Clamps every cursor onto the document.
    pub fn clamp_all(&mut self, buffer: &TextBuffer)
        requires
            buffer.wf(),
        ensures
            final(self).cursors@.len() == old(self).cursors@.len(),
            forall|i: int| 0 <= i < old(self).cursors@.len() ==>
                #[trigger] final(self).cursors@[i] == clamped(buffer.text(), old(self).cursors@[i]),
            all_valid(buffer.text(), final(self).cursors@),
    {
        let n = self.cursors.len();
        let mut i: usize = 0;
        while i < n
            invariant
                i <= n,
                n == old(self).cursors@.len(),
                self.cursors@.len() == n,
                buffer.wf(),
                forall|k: int| 0 <= k < i ==> #[trigger] self.cursors@[k] == clamped(buffer.text(), old(self).cursors@[k]),
                forall|k: int| i <= k < n ==> #[trigger] self.cursors@[k] == old(self).cursors@[k],
                forall|k: int| 0 <= k < i ==> #[trigger] self.cursors@[k].valid_in(buffer.text()),
            decreases n - i,
        {
            let mut c = self.cursors[i];
            c.clamp(buffer);
            self.cursors.set(i, c);
            i = i + 1;
        }
    }

}

/// Collapsing a set that holds only the primary cursor changes nothing.
pub proof fn lemma_collapse_single(cs: Seq<Cursor>)
    requires
        cs.len() == 1,
    ensures
        cs.take(1) == cs,
{
    assert(cs.take(1) =~= cs);
}

/// Typing through every cursor puts the character immediately left of
/// where each cursor ends: every character lands at its own cursor, however
/// many cursors share the line.
pub proof fn lemma_typed_char_at_each_cursor(text: Seq<Seq<char>>, cs: Seq<Cursor>, ch: char, i: int)
    requires
        all_valid(text, cs),
        0 <= i < cs.len(),
        text[cs[i].y as int].len() + cs.len() < usize::MAX,
    ensures
        typed_cursor(cs, i).y == cs[i].y,
        1 <= typed_cursor(cs, i).x <= typed_text(text, cs, ch)[cs[i].y as int].len(),
        typed_text(text, cs, ch)[cs[i].y as int][typed_cursor(cs, i).x - 1] == ch,
{
    let y = cs[i].y as int;
    let ms = Seq::new(cs.len(), |j: int| ch);
    assert(cs[i].valid_in(text));
    lemma_mark_index_bound(text[y], cs, ms, i);
    lemma_mark_lands(text[y], cs, ms, i);
    crate::weave::lemma_woven_len(text[y], cs, ms, y);
}

} // verus!
