use vstd::prelude::*;

use crate::buffer::TextBuffer;
use crate::cursors::Cursor;
use crate::weave::{weave, woven};

verus! {

/// One display unit of a rendered line, over the document's character type.
#[derive(Debug, Clone, Copy, PartialEq, Eq, Structural)]
pub enum Glyph<C> {
    /// A character of the document.
    Char(C),
    /// A blank shown between the line's end and a cursor standing past it.
    Pad,
    /// A cursor marker; the primary cursor's is told apart from the others.
    Marker(bool),
}

/// The number of columns line `y` is shown over before its markers: its own
/// length, or further out to the farthest of the first `n` cursors on it.
pub open spec fn shown_width(len: int, cs: Seq<Cursor>, y: int, n: int) -> int
    decreases n,
{
    if n <= 0 {
        len
    } else {
        let w = shown_width(len, cs, y, n - 1);
        if cs[n - 1].y == y && cs[n - 1].x > w { cs[n - 1].x as int } else { w }
    }
}

/// Each character as a glyph.
pub open spec fn char_glyphs(line: Seq<char>) -> Seq<Glyph<char>>
    decreases line.len(),
{
    if line.len() == 0 {
        Seq::empty()
    } else {
        char_glyphs(line.drop_last()).push(Glyph::Char(line.last()))
    }
}

proof fn lemma_char_glyphs(line: Seq<char>)
    ensures
        char_glyphs(line).len() == line.len(),
        forall|i: int| 0 <= i < line.len() ==> #[trigger] char_glyphs(line)[i] == Glyph::Char(line[i]),
    decreases line.len(),
{
    if line.len() > 0 {
        lemma_char_glyphs(line.drop_last());
    }
}

/// The line as glyphs, padded out to every cursor that stands past its end.
pub open spec fn padded_glyphs(line: Seq<char>, cs: Seq<Cursor>, y: int) -> Seq<Glyph<char>> {
    char_glyphs(line) + Seq::new(
        (shown_width(line.len() as int, cs, y, cs.len() as int) - line.len()) as nat,
        |i: int| Glyph::<char>::Pad,
    )
}

/// The marker of each cursor: the first is the primary.
pub open spec fn markers(n: nat) -> Seq<Glyph<char>> {
    Seq::new(n, |j: int| Glyph::<char>::Marker(j == 0))
}

/// Line `y` as shown: its glyphs with a marker before the column of each
/// cursor on it, by ascending column, cursors at one column in the set's
/// order.
pub open spec fn rendered_line(text: Seq<Seq<char>>, cs: Seq<Cursor>, y: int) -> Seq<Glyph<char>> {
    woven(padded_glyphs(text[y], cs, y), cs, markers(cs.len()), y)
}

proof fn lemma_shown_width(len: int, cs: Seq<Cursor>, y: int, n: int)
    requires
        0 <= n <= cs.len(),
    ensures
        shown_width(len, cs, y, n) >= len,
        forall|j: int| 0 <= j < n && cs[j].y == y ==> cs[j].x <= shown_width(len, cs, y, n),
        shown_width(len, cs, y, n) == len || exists|j: int| 0 <= j < n && shown_width(len, cs, y, n) == cs[j].x,
    decreases n,
{
    if n > 0 {
        lemma_shown_width(len, cs, y, n - 1);
    }
}

fn text_glyph(c: char) -> (g: Glyph<char>)
    ensures
        g == Glyph::Char(c),
{
    Glyph::Char(c)
}

/// The characters of `line` as glyphs, then blanks out to `width` columns.
fn glyphs_of(line: &Vec<char>, width: usize) -> (r: Vec<Glyph<char>>)
    requires
        line@.len() <= width,
    ensures
        r@ == char_glyphs(line@) + Seq::new(
            (width - line@.len()) as nat,
            |i: int| Glyph::<char>::Pad,
        ),
{
    let mut glyphs: Vec<Glyph<char>> = Vec::new();
    let mut k: usize = 0;
    while k < line.len()
        invariant
            k <= line@.len(),
            glyphs@.len() == k,
            forall|i: int| 0 <= i < k ==> glyphs@[i] == Glyph::Char(line@[i]),
        decreases line@.len() - k,
    {
        let c = line[k];
        glyphs.push(text_glyph(c));
        k = k + 1;
    }
    while k < width
        invariant
            line@.len() <= k <= width,
            glyphs@.len() == k,
            forall|i: int| 0 <= i < line@.len() ==> glyphs@[i] == Glyph::Char(line@[i]),
            forall|i: int| line@.len() <= i < k ==> glyphs@[i] == Glyph::<char>::Pad,
        decreases width - k,
    {
        glyphs.push(Glyph::<char>::Pad);
        k = k + 1;
    }
    let ghost front = char_glyphs(line@);
    proof {
        lemma_char_glyphs(line@);
    }
    let ghost back = Seq::new((width - line@.len()) as nat, |i: int| Glyph::<char>::Pad);
    assert forall|i: int| 0 <= i < glyphs@.len() implies glyphs@[i] == (front + back)[i] by {
        if i < line@.len() {
            assert((front + back)[i] == front[i]);
        } else {
            assert((front + back)[i] == back[i - line@.len()]);
        }
    }
    assert(glyphs@ =~= front + back);
    glyphs
}

impl TextBuffer {
    /// Every line of the document as display units, with the cursors'
    /// markers woven in. Reads the buffer and changes nothing.
    pub fn render(&self, cursors: &Vec<Cursor>) -> (r: Vec<Vec<Glyph<char>>>)
        requires
            forall|j: int| 0 <= j < cursors@.len() ==> #[trigger] cursors@[j].x + cursors@.len() < usize::MAX,
            forall|y: int| 0 <= y < self.lines@.len() ==> #[trigger] self.lines@[y]@.len() + cursors@.len() < usize::MAX,
        ensures
            r@.len() == self.lines@.len(),
            forall|y: int| 0 <= y < r@.len() ==> #[trigger] r@[y]@ == rendered_line(self.text(), cursors@, y),
    {
        let ghost cs = cursors@;
        let n = cursors.len();
        let mut marks: Vec<Glyph<char>> = Vec::new();
        let mut j: usize = 0;
        while j < n
            invariant
                j <= n,
                n == cs.len(),
                marks@ == Seq::new(j as nat, |k: int| Glyph::<char>::Marker(k == 0)),
            decreases n - j,
        {
            marks.push(Glyph::<char>::Marker(j == 0));
            j = j + 1;
            assert(marks@ =~= Seq::new(j as nat, |k: int| Glyph::<char>::Marker(k == 0)));
        }
        let mut r: Vec<Vec<Glyph<char>>> = Vec::new();
        let mut y: usize = 0;
        while y < self.lines.len()
            invariant
                y <= self.lines@.len(),
                n == cs.len(),
                cs == cursors@,
                marks@ == markers(n as nat),
                forall|j: int| 0 <= j < n ==> #[trigger] cs[j].x + n < usize::MAX,
                forall|y: int| 0 <= y < self.lines@.len() ==> #[trigger] self.lines@[y]@.len() + n < usize::MAX,
                r@.len() == y,
                forall|k: int| 0 <= k < y ==> #[trigger] r@[k]@ == rendered_line(self.text(), cs, k),
            decreases self.lines@.len() - y,
        {
            let line = &self.lines[y];
            assert(line@ == self.text()[y as int]);
            let ghost ll = line@.len() as int;
            let mut width: usize = line.len();
            let mut i: usize = 0;
            while i < n
                invariant
                    i <= n,
                    n == cs.len(),
                    cs == cursors@,
                    forall|j: int| 0 <= j < n ==> #[trigger] cs[j].x + n < usize::MAX,
                    ll + n < usize::MAX,
                    width == shown_width(ll, cs, y as int, i as int),
                    width + n < usize::MAX,
                decreases n - i,
            {
                if cursors[i].y == y && cursors[i].x > width {
                    width = cursors[i].x;
                }
                i = i + 1;
            }
            proof {
                lemma_shown_width(ll, cs, y as int, n as int);
            }
            let glyphs = glyphs_of(line, width);
            assert(glyphs@ =~= padded_glyphs(line@, cs, y as int));
            proof {
                lemma_char_glyphs(line@);
            }
            assert(glyphs@.len() == width);
            assert forall|j: int| 0 <= j < n && cs[j].y == y implies cs[j].x <= glyphs@.len() by {
                assert(cs[j].x <= shown_width(ll, cs, y as int, n as int));
            }
            let (out, _ends) = weave(&glyphs, cursors, &marks, y);
            r.push(out);
            y = y + 1;
        }
        r
    }
}

} // verus!
