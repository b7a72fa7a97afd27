use vstd::prelude::*;

use crate::cursors::Cursor;

verus! {

/// The line store: the document's lines, the file it belongs to (empty when
/// unnamed) and the 1-based index of the first visible line.
#[derive(Debug)]
pub struct TextBuffer {
    pub lines: Vec<Vec<char>>,
    pub path: String,
    pub view_start: usize,
}

/// The characters of each line.
pub open spec fn lines_of(v: Seq<Vec<char>>) -> Seq<Seq<char>> {
    v.map_values(|l: Vec<char>| l@)
}

/// Splitting line `c.y` at column `c.x` (clamped to the line's end); past the
/// last line, one empty line is appended instead. The caller moves to the
/// start of the next line.
pub open spec fn newline_text(text: Seq<Seq<char>>, c: Cursor) -> Seq<Seq<char>> {
    if c.y >= text.len() {
        text.push(Seq::empty())
    } else {
        let line = text[c.y as int];
        let col = if c.x <= line.len() { c.x as int } else { line.len() as int };
        text.update(c.y as int, line.take(col)).insert(c.y + 1, line.skip(col))
    }
}

impl TextBuffer {
    /// The document as a sequence of lines, each a sequence of characters.
    pub open spec fn text(&self) -> Seq<Seq<char>> {
        lines_of(self.lines@)
    }

    /// At least one line, and a view that starts at line 1 or later.
    pub open spec fn wf(&self) -> bool {
        &&& self.lines@.len() >= 1
        &&& self.view_start >= 1
    }

    /// An empty, unnamed buffer: one blank line, viewed from the top.
    pub fn new() -> (r: Self)
        ensures
            r.wf(),
            r.text() == seq![Seq::<char>::empty()],
            r.path@ == Seq::<char>::empty(),
            r.view_start == 1,
    {
        let mut lines: Vec<Vec<char>> = Vec::new();
        lines.push(Vec::new());
        let r = TextBuffer { lines, path: String::new(), view_start: 1 };
        assert(r.text() =~= seq![Seq::<char>::empty()]);
        r
    }

    /// A buffer holding `lines`, bound to `path`; no lines at all give one
    /// empty line, since a buffer is never without a line.
    pub fn from_lines(lines: Vec<Vec<char>>, path: String) -> (r: Self)
        ensures
            r.wf(),
            r.path == path,
            r.view_start == 1,
            lines@.len() > 0 ==> r.text() == lines_of(lines@),
            lines@.len() == 0 ==> r.text() == seq![Seq::<char>::empty()],
    {
        if lines.len() == 0 {
            TextBuffer::new_with_path(path)
        } else {
            TextBuffer { lines, path, view_start: 1 }
        }
    }

    fn new_with_path(path: String) -> (r: Self)
        ensures
            r.wf(),
            r.text() == seq![Seq::<char>::empty()],
            r.path == path,
            r.view_start == 1,
    {
        let mut r = TextBuffer::new();
        r.path = path;
        r
    }

    /// Splits the line under `cursor` at its column and moves the cursor to
    /// the start of the new line below.
    pub fn insert_newline(&mut self, cursor: &mut Cursor)
        requires
            old(self).wf(),
            old(cursor).y < usize::MAX,
        ensures
            final(self).wf(),
            final(self).text() == newline_text(old(self).text(), *old(cursor)),
            *final(cursor) == (Cursor { x: 0, y: (old(cursor).y + 1) as usize }),
            final(self).path == old(self).path,
            final(self).view_start == old(self).view_start,
    {
        let ghost t0 = self.text();
        if cursor.y >= self.lines.len() {
            self.lines.push(Vec::new());
            assert(self.text() =~= newline_text(t0, *old(cursor)));
        } else {
            let y = cursor.y;
            let len = self.lines[y].len();
            let col = if cursor.x <= len { cursor.x } else { len };
            let tail = self.lines[y].split_off(col);
            self.lines.insert(y + 1, tail);
            assert(self.text() =~= newline_text(t0, *old(cursor)));
        }
        cursor.x = 0;
        cursor.y = cursor.y + 1;
    }

    /// Scrolls the view one line down.
    pub fn view_go_down(&mut self)
        requires
            old(self).view_start < usize::MAX,
        ensures
            final(self).view_start == old(self).view_start + 1,
            final(self).lines == old(self).lines,
            final(self).path == old(self).path,
    {
        self.view_start = self.view_start + 1;
    }

    /// Scrolls the view one line up; the view never starts before line 1.
    pub fn view_go_up(&mut self)
        ensures
            old(self).view_start > 1 ==> final(self).view_start == old(self).view_start - 1,
            old(self).view_start <= 1 ==> final(self).view_start == old(self).view_start,
            final(self).lines == old(self).lines,
            final(self).path == old(self).path,
    {
        if self.view_start > 1 {
            self.view_start = self.view_start - 1;
        }
    }
}

} // verus!
