use barcode::buffer::TextBuffer;
use barcode::cursor_set::CursorSet;
use barcode::cursors::Cursor;
use barcode::editor::{fits_limits, handle_key, Action, Key};
use barcode::message::MessageType;
use barcode::render::Glyph;
use barcode::view::{gutter, visible_lines};

fn buffer_of(lines: &[&str]) -> TextBuffer {
    TextBuffer::from_lines(lines.iter().map(|l| l.chars().collect()).collect(), String::new())
}

fn text(buffer: &TextBuffer) -> Vec<String> {
    buffer.lines.iter().map(|l| l.iter().collect()).collect()
}

fn show(line: &[Glyph<char>]) -> String {
    line.iter()
        .map(|g| match g {
            Glyph::Char(c) => *c,
            Glyph::Pad => '.',
            Glyph::Marker(true) => '|',
            Glyph::Marker(false) => '!',
        })
        .collect()
}

#[test]
fn render_marks_primary_cursor() {
    let b = buffer_of(&["abc", "de"]);
    let r = b.render(&vec![Cursor { x: 1, y: 0 }]);
    assert_eq!(r.len(), 2);
    assert_eq!(show(&r[0]), "a|bc");
    assert_eq!(show(&r[1]), "de");
}

#[test]
fn render_weaves_several_markers_on_a_line() {
    let b = buffer_of(&["abcdef"]);
    let r = b.render(&vec![Cursor { x: 4, y: 0 }, Cursor { x: 1, y: 0 }, Cursor { x: 6, y: 0 }]);
    assert_eq!(show(&r[0]), "a!bcd|ef!");
}

#[test]
fn render_primary_goes_first_on_a_tie() {
    let b = buffer_of(&["ab"]);
    let r = b.render(&vec![Cursor { x: 1, y: 0 }, Cursor { x: 1, y: 0 }]);
    assert_eq!(show(&r[0]), "a|!b");
}

#[test]
fn render_pads_up_to_cursor_past_line_end() {
    let b = buffer_of(&["ab"]);
    let r = b.render(&vec![Cursor { x: 5, y: 0 }, Cursor { x: 3, y: 0 }]);
    assert_eq!(show(&r[0]), "ab.!..|");
}

#[test]
fn render_leaves_buffer_unchanged() {
    let b = buffer_of(&["ab", "c"]);
    let _ = b.render(&vec![Cursor { x: 0, y: 1 }]);
    assert_eq!(text(&b), vec!["ab", "c"]);
}

#[test]
fn viewport_follows_cursor_down_and_up() {
    let lines: Vec<String> = (0..50).map(|i| format!("line {}", i)).collect();
    let refs: Vec<&str> = lines.iter().map(|s| s.as_str()).collect();
    let mut b = buffer_of(&refs);
    let rows = 20;
    let margin = 4;
    for y in 0..50 {
        b.adjust_view(y, rows, margin);
    }
    assert_eq!(b.view_start, 34);
    let row_of_49 = 49 - (b.view_start - 1);
    assert!(row_of_49 < rows);
    assert!(row_of_49 >= rows - margin);
    for y in (0..50).rev() {
        b.adjust_view(y, rows, margin);
        assert!(b.view_start >= 1);
    }
    assert_eq!(b.view_start, 1);
}

#[test]
fn viewport_steps_once_per_call() {
    let mut b = TextBuffer::new();
    b.adjust_view(16, 20, 4);
    assert_eq!(b.view_start, 1);
    b.adjust_view(17, 20, 4);
    assert_eq!(b.view_start, 2);
}

#[test]
fn gutter_counts_from_view_start() {
    assert_eq!(gutter(3, 5, 3), vec![(3, false), (4, true), (5, false)]);
    assert_eq!(gutter(1, 2, 0), vec![(1, true), (2, false)]);
    assert_eq!(gutter(7, 5, 0), Vec::<(usize, bool)>::new());
}

#[test]
fn message_titles() {
    assert_eq!(MessageType::Success.title(), "Success");
    assert_eq!(MessageType::Error.title(), "Error");
}

#[test]
fn typing_enter_and_backspace_end_to_end() {
    let mut b = TextBuffer::new();
    let mut s = CursorSet::new();
    for c in "hi".chars() {
        assert_eq!(handle_key(Key::Char(c), &mut b, &mut s), Action::Continue);
    }
    handle_key(Key::Enter, &mut b, &mut s);
    for c in "bye".chars() {
        handle_key(Key::Char(c), &mut b, &mut s);
    }
    assert_eq!(text(&b), vec!["hi", "bye"]);
    s.cursors[0] = Cursor { x: 0, y: 1 };
    handle_key(Key::Backspace, &mut b, &mut s);
    assert_eq!(text(&b), vec!["hibye"]);
    assert_eq!(s.primary(), Cursor { x: 2, y: 0 });
}

#[test]
fn control_characters_are_not_typed() {
    let mut b = TextBuffer::new();
    let mut s = CursorSet::new();
    handle_key(Key::Char('\t'), &mut b, &mut s);
    handle_key(Key::Char('é'), &mut b, &mut s);
    assert_eq!(text(&b), vec![""]);
}

#[test]
fn commands_are_handed_back() {
    let mut b = TextBuffer::new();
    let mut s = CursorSet::new();
    assert_eq!(handle_key(Key::Esc, &mut b, &mut s), Action::Quit);
    assert_eq!(handle_key(Key::Save, &mut b, &mut s), Action::Save);
    assert_eq!(handle_key(Key::SaveAs, &mut b, &mut s), Action::SaveAs);
    assert_eq!(handle_key(Key::Other, &mut b, &mut s), Action::Continue);
}

#[test]
fn navigation_moves_only_the_primary() {
    let mut b = buffer_of(&["abc"]);
    let mut s = CursorSet::new();
    handle_key(Key::AddCursor, &mut b, &mut s);
    handle_key(Key::Right, &mut b, &mut s);
    handle_key(Key::Right, &mut b, &mut s);
    assert_eq!(s.cursors, vec![Cursor { x: 2, y: 0 }, Cursor { x: 0, y: 0 }]);
    handle_key(Key::Char('-'), &mut b, &mut s);
    assert_eq!(text(&b), vec!["-ab-c"]);
    handle_key(Key::Collapse, &mut b, &mut s);
    assert_eq!(s.cursors, vec![Cursor { x: 4, y: 0 }]);
}

#[test]
fn small_documents_fit_limits() {
    let b = buffer_of(&["abc", ""]);
    assert!(fits_limits(&b, 3));
}

#[test]
fn visible_lines_start_at_view_start() {
    let rendered = vec![10, 11, 12, 13];
    assert_eq!(visible_lines(rendered.clone(), 1), vec![10, 11, 12, 13]);
    assert_eq!(visible_lines(rendered.clone(), 3), vec![12, 13]);
    assert_eq!(visible_lines(rendered.clone(), 5), Vec::<i32>::new());
    assert_eq!(visible_lines(rendered, 9), Vec::<i32>::new());
}

#[test]
fn move_up_on_first_line_keeps_column() {
    let mut b = buffer_of(&["abcd", "x"]);
    let mut s = CursorSet::new();
    s.cursors[0] = Cursor { x: 3, y: 0 };
    handle_key(Key::Up, &mut b, &mut s);
    assert_eq!(s.primary(), Cursor { x: 3, y: 0 });
}
