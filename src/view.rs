use vstd::prelude::*;

use crate::buffer::TextBuffer;

verus! {

/// The primary cursor on line `cursor_y` is within `margin` rows of the
/// bottom of a window of `rows` rows that starts at line `view_start`.
pub open spec fn near_bottom(view_start: int, cursor_y: int, rows: int, margin: int) -> bool {
    cursor_y + margin + 1 > rows + view_start
}

/// The primary cursor is within `margin` rows of the top of the window, and
/// not among the first `margin + 1` lines of the document.
pub open spec fn near_top(view_start: int, cursor_y: int, margin: int) -> bool {
    cursor_y < margin + view_start && cursor_y > margin
}

/// The first visible line after one adjustment: one line further down when
/// the cursor nears the bottom, one line back up when it nears the top, and
/// never before line 1.
pub open spec fn adjusted_view_start(view_start: int, cursor_y: int, rows: int, margin: int) -> int {
    let down = if near_bottom(view_start, cursor_y, rows, margin) && view_start < usize::MAX {
        view_start + 1
    } else {
        view_start
    };
    if near_top(view_start, cursor_y, margin) && down > 1 {
        down - 1
    } else {
        down
    }
}

/// Line numbers shown in the gutter, from `view_start` to the last line,
/// each marked when it is the primary cursor's line.
pub open spec fn gutter_spec(view_start: int, line_count: int, cursor_y: int) -> Seq<(usize, bool)> {
    Seq::new(
        (if line_count >= view_start - 1 { line_count - (view_start - 1) } else { 0 }) as nat,
        |i: int| ((view_start + i) as usize, view_start - 1 + i == cursor_y),
    )
}

impl TextBuffer {
    /// Keeps the primary cursor, on line `cursor_y`, at least `margin` rows
    /// away from the edges of a window of `rows` rows, by one line per call.
    pub fn adjust_view(&mut self, cursor_y: usize, rows: usize, margin: usize)
        requires
            old(self).wf(),
        ensures
            final(self).wf(),
            final(self).view_start == adjusted_view_start(old(self).view_start as int, cursor_y as int, rows as int, margin as int),
            final(self).lines == old(self).lines,
            final(self).path == old(self).path,
    {
        let vs = self.view_start;
        let down = (cursor_y as u128) + (margin as u128) + 1 > (rows as u128) + (vs as u128);
        let up = (cursor_y as u128) < (margin as u128) + (vs as u128) && cursor_y > margin;
        if down && self.view_start < usize::MAX {
            self.view_go_down();
        }
        if up {
            self.view_go_up();
        }
    }
}

/// The gutter for a document of `line_count` lines viewed from line
/// `view_start`: each shown line's 1-based number, and whether the primary
/// cursor stands on it.
pub fn gutter(view_start: usize, line_count: usize, cursor_y: usize) -> (r: Vec<(usize, bool)>)
    requires
        view_start >= 1,
    ensures
        r@ == gutter_spec(view_start as int, line_count as int, cursor_y as int),
{
    let mut r: Vec<(usize, bool)> = Vec::new();
    let mut line = view_start - 1;
    while line < line_count
        invariant
            view_start >= 1,
            view_start - 1 <= line,
            line_count < view_start ==> line == view_start - 1,
            line_count >= view_start ==> line <= line_count,
            r@ == gutter_spec(view_start as int, line as int, cursor_y as int),
        decreases line_count - line,
    {
        r.push((line + 1, line == cursor_y));
        line = line + 1;
        assert(r@ =~= gutter_spec(view_start as int, line as int, cursor_y as int));
    }
    assert(r@ =~= gutter_spec(view_start as int, line_count as int, cursor_y as int));
    r
}

/// The rendered lines that the window shows: those from line `view_start`
/// (1-based) on; none when the view starts past the last line.
pub fn visible_lines<T>(rendered: Vec<T>, view_start: usize) -> (r: Vec<T>)
    requires
        view_start >= 1,
    ensures
        view_start - 1 <= rendered@.len() ==> r@ == rendered@.skip(view_start - 1),
        view_start - 1 > rendered@.len() ==> r@.len() == 0,
{
    let ghost all = rendered@;
    let mut rendered = rendered;
    let skip = view_start - 1;
    if skip > rendered.len() {
        Vec::new()
    } else {
        let shown = rendered.split_off(skip);
        assert(shown@ =~= all.skip(skip as int));
        shown
    }
}

/// The first visible line after the primary cursor has gone down from the
/// first line to line `y`, one line per adjustment, starting from line 1.
pub open spec fn view_after_descent(y: int, rows: int, margin: int) -> int
    decreases y,
{
    if y <= 0 {
        adjusted_view_start(1, 0, rows, margin)
    } else {
        adjusted_view_start(view_after_descent(y - 1, rows, margin), y, rows, margin)
    }
}

/// When the primary cursor walks down line by line from the top, with the
/// view adjusted after each step, the view never starts before line 1, the
/// cursor's line is always on screen, and once the cursor is past the first
/// `rows - margin` lines its line is drawn exactly `margin` rows above the
/// bottom edge, that is within the last `margin` rows of the window.
pub proof fn lemma_descent_keeps_cursor_in_margin(y: int, rows: int, margin: int)
    requires
        0 <= y,
        1 <= margin,
        1 <= rows,
        2 * margin <= rows,
        y + margin + 1 < usize::MAX,
    ensures
        view_after_descent(y, rows, margin) >= 1,
        view_after_descent(y, rows, margin) == if y + margin + 1 > rows { y + margin + 1 - rows } else { 1 },
        0 <= y - (view_after_descent(y, rows, margin) - 1) < rows,
        y + margin + 1 > rows ==> y - (view_after_descent(y, rows, margin) - 1) == rows - margin,
    decreases y,
{
    if y > 0 {
        lemma_descent_keeps_cursor_in_margin(y - 1, rows, margin);
    }
}

} // verus!
