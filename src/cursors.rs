use vstd::prelude::*;

use crate::buffer::{newline_text, TextBuffer};

verus! {

/// One edit point: column `x` on line `y`.
#[derive(Debug, Clone, Copy, PartialEq, Eq, Structural)]
pub struct Cursor {
    pub x: usize,
    pub y: usize,
}

impl Cursor {
    /// The cursor names an existing line and a column within it (the column
    /// just past the last character included).
    pub open spec fn valid_in(self, text: Seq<Seq<char>>) -> bool {
        &&& self.y < text.len()
        &&& self.x <= text[self.y as int].len()
    }
}

/// The cursor moved onto the document: the line index is clamped to the
/// last line, then the column to that line's end.
pub open spec fn clamped(text: Seq<Seq<char>>, c: Cursor) -> Cursor {
    let y = if c.y < text.len() { c.y as int } else { text.len() - 1 };
    let len = text[y].len();
    Cursor { x: (if c.x <= len { c.x as int } else { len as int }) as usize, y: y as usize }
}

/// Where `move_left` leaves `c`.
pub open spec fn left_of(text: Seq<Seq<char>>, c: Cursor) -> Cursor {
    if c.x > 0 {
        Cursor { x: (c.x - 1) as usize, y: c.y }
    } else if c.y > 0 {
        Cursor { x: text[c.y - 1].len() as usize, y: (c.y - 1) as usize }
    } else {
        c
    }
}

/// Where `move_right` leaves `c`.
pub open spec fn right_of(text: Seq<Seq<char>>, c: Cursor) -> Cursor {
    if c.x < text[c.y as int].len() {
        Cursor { x: (c.x + 1) as usize, y: c.y }
    } else if c.y + 1 < text.len() {
        Cursor { x: 0, y: (c.y + 1) as usize }
    } else {
        c
    }
}

/// Where `move_up` leaves `c`: one line up, clamped at the first line, with
/// the column clamped to the length of the line it ends on.
pub open spec fn up_of(text: Seq<Seq<char>>, c: Cursor) -> Cursor {
    if c.y == 0 {
        let len = text[0].len();
        Cursor { x: (if c.x <= len { c.x as int } else { len as int }) as usize, y: 0 }
    } else {
        let len = text[c.y - 1].len();
        Cursor { x: (if c.x <= len { c.x as int } else { len as int }) as usize, y: (c.y - 1) as usize }
    }
}

/// Where `move_down` leaves `c`: the column is clamped to the line below; on
/// the last line the cursor goes to its end.
pub open spec fn down_of(text: Seq<Seq<char>>, c: Cursor) -> Cursor {
    if c.y + 1 >= text.len() {
        Cursor { x: text[text.len() - 1].len() as usize, y: (text.len() - 1) as usize }
    } else {
        let len = text[c.y + 1].len();
        Cursor { x: (if c.x <= len { c.x as int } else { len as int }) as usize, y: (c.y + 1) as usize }
    }
}

/// The cursor after a run of horizontal moves: `true` moves right, `false`
/// moves left.
pub open spec fn after_moves(text: Seq<Seq<char>>, c: Cursor, moves: Seq<bool>) -> Cursor
    decreases moves.len(),
{
    if moves.len() == 0 {
        c
    } else {
        let next = if moves[0] { right_of(text, c) } else { left_of(text, c) };
        after_moves(text, next, moves.skip(1))
    }
}

/// The document with line `y` present: empty lines are appended as needed.
pub open spec fn padded_to(text: Seq<Seq<char>>, y: int) -> Seq<Seq<char>> {
    if y < text.len() {
        text
    } else {
        text + Seq::new((y + 1 - text.len()) as nat, |i: int| Seq::<char>::empty())
    }
}

/// The column at which `insert_char` writes: the cursor's own, clamped to the
/// line's end.
pub open spec fn insert_col(text: Seq<Seq<char>>, c: Cursor) -> int {
    let line = padded_to(text, c.y as int)[c.y as int];
    if c.x <= line.len() { c.x as int } else { line.len() as int }
}

/// The document after typing `ch` at `c`.
pub open spec fn insert_char_text(text: Seq<Seq<char>>, c: Cursor, ch: char) -> Seq<Seq<char>> {
    let t = padded_to(text, c.y as int);
    t.update(c.y as int, t[c.y as int].insert(insert_col(text, c), ch))
}

/// The document after a backspace at `c`: the character left of the cursor
/// goes; at a line's start the line joins the one above; at the very start
/// nothing happens.
pub open spec fn backspace_text(text: Seq<Seq<char>>, c: Cursor) -> Seq<Seq<char>> {
    if c.x > 0 {
        text.update(c.y as int, text[c.y as int].remove(c.x - 1))
    } else if c.y > 0 {
        text.update(c.y - 1, text[c.y - 1] + text[c.y as int]).remove(c.y as int)
    } else {
        text
    }
}

/// Where a backspace at `c` leaves the cursor.
pub open spec fn backspace_cursor(text: Seq<Seq<char>>, c: Cursor) -> Cursor {
    if c.x > 0 {
        Cursor { x: (c.x - 1) as usize, y: c.y }
    } else if c.y > 0 {
        Cursor { x: text[c.y - 1].len() as usize, y: (c.y - 1) as usize }
    } else {
        c
    }
}

impl Cursor {
    /// Types `ch` at the cursor and moves past it. A cursor beyond the last
    /// line first gets the missing lines, empty.
    pub fn insert_char(&mut self, buffer: &mut TextBuffer, ch: char)
        requires
            old(buffer).wf(),
        ensures
            final(buffer).wf(),
            final(buffer).text() == insert_char_text(old(buffer).text(), *old(self), ch),
            *final(self) == (Cursor { x: (insert_col(old(buffer).text(), *old(self)) + 1) as usize, y: old(self).y }),
            final(self).valid_in(final(buffer).text()),
            final(buffer).path == old(buffer).path,
            final(buffer).view_start == old(buffer).view_start,
    {
        let ghost t0 = buffer.text();
        let y = self.y;
        while buffer.lines.len() <= y
            invariant
                buffer.wf(),
                buffer.text() == t0 + Seq::new((buffer.lines@.len() - t0.len()) as nat, |i: int| Seq::<char>::empty()),
                buffer.lines@.len() >= t0.len(),
                buffer.lines@.len() <= if y < t0.len() { t0.len() as int } else { y + 1 },
                buffer.path == old(buffer).path,
                buffer.view_start == old(buffer).view_start,
            decreases y + 1 - buffer.lines@.len(),
        {
            let ghost prev = buffer.text();
            buffer.lines.push(Vec::new());
            assert(buffer.text() =~= prev.push(Seq::<char>::empty()));
            assert(buffer.text() =~= t0 + Seq::new((buffer.lines@.len() - t0.len()) as nat, |i: int| Seq::<char>::empty()));
        }
        assert(buffer.text() =~= padded_to(t0, y as int));
        let len = buffer.lines[y].len();
        let col = if self.x <= len { self.x } else { len };
        buffer.lines[y].insert(col, ch);
        assert(buffer.text() =~= insert_char_text(t0, *old(self), ch));
        let new_len = buffer.lines[y].len();
        assert(col < new_len);
        self.x = col + 1;
    }

    /// Deletes the character left of the cursor, joining the line to the one
    /// above when the cursor is at its start.
    pub fn backspace(&mut self, buffer: &mut TextBuffer)
        requires
            old(buffer).wf(),
            old(self).valid_in(old(buffer).text()),
        ensures
            final(buffer).wf(),
            final(buffer).text() == backspace_text(old(buffer).text(), *old(self)),
            *final(self) == backspace_cursor(old(buffer).text(), *old(self)),
            final(self).valid_in(final(buffer).text()),
            final(buffer).path == old(buffer).path,
            final(buffer).view_start == old(buffer).view_start,
    {
        let ghost t0 = buffer.text();
        if self.x > 0 {
            self.x = self.x - 1;
            buffer.lines[self.y].remove(self.x);
            assert(buffer.text() =~= backspace_text(t0, *old(self)));
        } else if self.y > 0 {
            let prev_line_len = buffer.lines[self.y - 1].len();
            let mut current_line = buffer.lines.remove(self.y);
            buffer.lines[self.y - 1].append(&mut current_line);
            assert(buffer.text() =~= backspace_text(t0, *old(self)));
            self.x = prev_line_len;
            self.y = self.y - 1;
        }
    }

    /// Moves the cursor onto the document: the line index is clamped to the
    /// last line, then the column to that line's end.
    pub fn clamp(&mut self, buffer: &TextBuffer)
        requires
            buffer.wf(),
        ensures
            *final(self) == clamped(buffer.text(), *old(self)),
            final(self).valid_in(buffer.text()),
    {
        if self.y >= buffer.lines.len() {
            self.y = buffer.lines.len() - 1;
        }
        let len = buffer.lines[self.y].len();
        if self.x > len {
            self.x = len;
        }
    }

    /// Moves one column left, or to the end of the previous line.
    pub fn move_left(&mut self, buffer: &TextBuffer)
        requires
            buffer.wf(),
            old(self).valid_in(buffer.text()),
        ensures
            *final(self) == left_of(buffer.text(), *old(self)),
            final(self).valid_in(buffer.text()),
    {
        if self.x > 0 {
            self.x = self.x - 1;
        } else if self.y > 0 {
            self.y = self.y - 1;
            self.x = buffer.lines[self.y].len();
        }
    }

    /// Moves one column right, or to the start of the next line.
    pub fn move_right(&mut self, buffer: &TextBuffer)
        requires
            buffer.wf(),
            old(self).valid_in(buffer.text()),
        ensures
            *final(self) == right_of(buffer.text(), *old(self)),
            final(self).valid_in(buffer.text()),
    {
        if self.x < buffer.lines[self.y].len() {
            self.x = self.x + 1;
        } else if self.y < buffer.lines.len() - 1 {
            self.y = self.y + 1;
            self.x = 0;
        }
    }

    /// Moves one line up, keeping the column within the new line; on the
    /// first line only the column is clamped.
    pub fn move_up(&mut self, buffer: &TextBuffer)
        requires
            buffer.wf(),
            old(self).valid_in(buffer.text()),
        ensures
            *final(self) == up_of(buffer.text(), *old(self)),
            final(self).valid_in(buffer.text()),
    {
        if self.y > 0 {
            self.y = self.y - 1;
        }
        let line_len = buffer.lines[self.y].len();
        if self.x > line_len {
            self.x = line_len;
        }
    }

    /// Moves one line down, keeping the column within the new line; on the
    /// last line the cursor goes to its end.
    pub fn move_down(&mut self, buffer: &TextBuffer)
        requires
            buffer.wf(),
        ensures
            *final(self) == down_of(buffer.text(), *old(self)),
            final(self).valid_in(buffer.text()),
    {
        if self.y >= buffer.lines.len() - 1 {
            self.y = buffer.lines.len() - 1;
            self.x = buffer.lines[self.y].len();
        } else {
            self.y = self.y + 1;
            let line_len = buffer.lines[self.y].len();
            if self.x > line_len {
                self.x = line_len;
            }
        }
    }
}

/// Horizontal moves keep a cursor on an existing line and within that line,
/// whatever the run of moves.
pub proof fn lemma_moves_stay_in_bounds(text: Seq<Seq<char>>, c: Cursor, moves: Seq<bool>)
    requires
        text.len() >= 1,
        c.valid_in(text),
    ensures
        after_moves(text, c, moves).valid_in(text),
    decreases moves.len(),
{
    if moves.len() > 0 {
        let next = if moves[0] { right_of(text, c) } else { left_of(text, c) };
        lemma_moves_stay_in_bounds(text, next, moves.skip(1));
    }
}

/// A newline at a valid cursor, followed by a backspace at the cursor's new
/// place, gives back the document and the cursor as they were.
pub proof fn lemma_newline_then_backspace(text: Seq<Seq<char>>, c: Cursor)
    requires
        c.valid_in(text),
        c.y < usize::MAX,
    ensures
        backspace_text(newline_text(text, c), Cursor { x: 0, y: (c.y + 1) as usize }) == text,
        backspace_cursor(newline_text(text, c), Cursor { x: 0, y: (c.y + 1) as usize }) == c,
{
    let line = text[c.y as int];
    assert(line.take(c.x as int) + line.skip(c.x as int) =~= line);
    assert(backspace_text(newline_text(text, c), Cursor { x: 0, y: (c.y + 1) as usize }) =~= text);
}

} // verus!
