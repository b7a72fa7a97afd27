use vstd::prelude::*;

use crate::buffer::TextBuffer;
use crate::cursor_set::{all_valid, backspaced, typed_cursor, typed_text, CursorSet};
use crate::cursors::{clamped, down_of, left_of, right_of, up_of};
use crate::split::{broken_cursor, broken_text};

verus! {

/// A key press, as the editor tells them apart.
#[derive(Debug, Clone, Copy, PartialEq, Eq, Structural)]
pub enum Key {
    /// A character key without a command modifier.
    Char(char),
    Left,
    Right,
    Up,
    Down,
    Enter,
    Backspace,
    Esc,
    /// Add a cursor where the primary stands.
    AddCursor,
    /// Drop the secondary cursors.
    Collapse,
    Save,
    SaveAs,
    /// Any other key; ignored.
    Other,
}

/// What the caller has to do after a key press.
#[derive(Debug, Clone, Copy, PartialEq, Eq, Structural)]
pub enum Action {
    Continue,
    Save,
    SaveAs,
    Quit,
}

/// The characters that typing inserts: printable ASCII and the space.
pub open spec fn typable(c: char) -> bool {
    ' ' <= c && c <= '~'
}

/// The document and cursor set are small enough for a batch edit: every
/// line, and the number of lines, can grow by one per cursor.
pub open spec fn within_limits(buffer: &TextBuffer, n: int) -> bool {
    &&& buffer.lines@.len() + n < usize::MAX
    &&& forall|y: int| 0 <= y < buffer.lines@.len() ==> #[trigger] buffer.lines@[y]@.len() + n < usize::MAX
}

/// Tells whether a batch edit through `n` cursors fits the machine's sizes.
pub fn fits_limits(buffer: &TextBuffer, n: usize) -> (r: bool)
    ensures
        r == within_limits(buffer, n as int),
{
    if buffer.lines.len() >= usize::MAX - n {
        return false;
    }
    let mut y: usize = 0;
    while y < buffer.lines.len()
        invariant
            y <= buffer.lines@.len(),
            forall|k: int| 0 <= k < y ==> #[trigger] buffer.lines@[k]@.len() + n < usize::MAX,
        decreases buffer.lines@.len() - y,
    {
        if buffer.lines[y].len() >= usize::MAX - n {
            return false;
        }
        y = y + 1;
    }
    true
}

/// Applies one key press to the buffer and the cursors: navigation moves
/// the primary cursor, edits go through every cursor, and the commands that
/// need the outside world are handed back as an action.
pub fn handle_key(key: Key, buffer: &mut TextBuffer, cursors: &mut CursorSet) -> (r: Action)
    requires
        old(buffer).wf(),
        old(cursors).wf(),
        all_valid(old(buffer).text(), old(cursors).cursors@),
    ensures
        final(buffer).wf(),
        final(cursors).wf(),
        all_valid(final(buffer).text(), final(cursors).cursors@),
        final(buffer).path == old(buffer).path,
        final(buffer).view_start == old(buffer).view_start,
        r == (match key {
            Key::Esc => Action::Quit,
            Key::Save => Action::Save,
            Key::SaveAs => Action::SaveAs,
            _ => Action::Continue,
        }),
        ({
            let t0 = old(buffer).text();
            let cs = old(cursors).cursors@;
            let t1 = final(buffer).text();
            let cs1 = final(cursors).cursors@;
            let n = cs.len();
            match key {
                Key::Char(c) => if typable(c) && within_limits(old(buffer), n as int) {
                    &&& t1 == typed_text(t0, cs, c)
                    &&& cs1 == Seq::new(n, |i: int| typed_cursor(cs, i))
                } else {
                    t1 == t0 && cs1 == cs
                },
                Key::Enter => if within_limits(old(buffer), n as int) {
                    &&& t1 == broken_text(t0, cs)
                    &&& cs1 == Seq::new(n, |i: int| broken_cursor(cs, i))
                } else {
                    t1 == t0 && cs1 == cs
                },
                Key::Backspace => {
                    &&& t1 == backspaced(t0, cs, n as int).0
                    &&& cs1 == Seq::new(n, |i: int| clamped(t1, backspaced(t0, cs, n as int).1[i]))
                },
                Key::Left => t1 == t0 && cs1 == cs.update(0, left_of(t0, cs[0])),
                Key::Right => t1 == t0 && cs1 == cs.update(0, right_of(t0, cs[0])),
                Key::Up => t1 == t0 && cs1 == cs.update(0, up_of(t0, cs[0])),
                Key::Down => t1 == t0 && cs1 == cs.update(0, down_of(t0, cs[0])),
                Key::AddCursor => t1 == t0 && cs1 == cs.push(cs[0]),
                Key::Collapse => t1 == t0 && cs1 == cs.take(1),
                _ => t1 == t0 && cs1 == cs,
            }
        }),
{
    let ghost t0 = buffer.text();
    let ghost cs = cursors.cursors@;
    match key {
        Key::Char(c) => {
            if ' ' <= c && c <= '~' && fits_limits(buffer, cursors.cursors.len()) {
                cursors.insert_char(buffer, c);
                assert(cursors.cursors@ =~= Seq::new(cs.len(), |i: int| typed_cursor(cs, i)));
            }
            Action::Continue
        },
        Key::Enter => {
            if fits_limits(buffer, cursors.cursors.len()) {
                cursors.insert_newline(buffer);
                assert(cursors.cursors@ =~= Seq::new(cs.len(), |i: int| broken_cursor(cs, i)));
            }
            Action::Continue
        },
        Key::Backspace => {
            cursors.backspace(buffer);
            assert(cursors.cursors@ =~= Seq::new(cs.len(), |i: int| clamped(buffer.text(), backspaced(t0, cs, cs.len() as int).1[i])));
            Action::Continue
        },
        Key::Left => {
            cursors.move_left(buffer);
            Action::Continue
        },
        Key::Right => {
            cursors.move_right(buffer);
            Action::Continue
        },
        Key::Up => {
            cursors.move_up(buffer);
            Action::Continue
        },
        Key::Down => {
            cursors.move_down(buffer);
            Action::Continue
        },
        Key::AddCursor => {
            cursors.duplicate_primary();
            assert(all_valid(buffer.text(), cursors.cursors@)) by {
                assert forall|i: int| 0 <= i < cursors.cursors@.len() implies #[trigger] cursors.cursors@[i].valid_in(buffer.text()) by {
                    if i < cs.len() {
                        assert(cs[i].valid_in(t0));
                    } else {
                        assert(cs[0].valid_in(t0));
                    }
                }
            }
            Action::Continue
        },
        Key::Collapse => {
            cursors.collapse();
            Action::Continue
        },
        Key::Esc => Action::Quit,
        Key::Save => Action::Save,
        Key::SaveAs => Action::SaveAs,
        Key::Other => Action::Continue,
    }
}

} // verus!
