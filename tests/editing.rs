use barcode::buffer::TextBuffer;
use barcode::cursor_set::CursorSet;
use barcode::cursors::Cursor;

fn chars(s: &str) -> Vec<char> {
    s.chars().collect()
}

fn buffer_of(lines: &[&str]) -> TextBuffer {
    TextBuffer::from_lines(lines.iter().map(|l| chars(l)).collect(), String::new())
}

fn text(buffer: &TextBuffer) -> Vec<String> {
    buffer.lines.iter().map(|l| l.iter().collect()).collect()
}

fn set_of(cs: &[(usize, usize)]) -> CursorSet {
    CursorSet { cursors: cs.iter().map(|&(x, y)| Cursor { x, y }).collect() }
}

#[test]
fn new_buffer_is_one_empty_line() {
    let b = TextBuffer::new();
    assert_eq!(text(&b), vec![String::new()]);
    assert_eq!(b.path, "");
    assert_eq!(b.view_start, 1);
}

#[test]
fn from_no_lines_keeps_one_line() {
    let b = TextBuffer::from_lines(Vec::new(), "notes.txt".to_string());
    assert_eq!(text(&b), vec![String::new()]);
    assert_eq!(b.path, "notes.txt");
}

#[test]
fn move_left_wraps_to_previous_line_end() {
    let b = buffer_of(&["abc", "de"]);
    let mut c = Cursor { x: 0, y: 1 };
    c.move_left(&b);
    assert_eq!(c, Cursor { x: 3, y: 0 });
    c.move_left(&b);
    assert_eq!(c, Cursor { x: 2, y: 0 });
}

#[test]
fn move_left_at_start_does_nothing() {
    let b = buffer_of(&["abc"]);
    let mut c = Cursor { x: 0, y: 0 };
    c.move_left(&b);
    assert_eq!(c, Cursor { x: 0, y: 0 });
}

#[test]
fn move_right_wraps_and_stops_at_end() {
    let b = buffer_of(&["ab", "c"]);
    let mut c = Cursor { x: 2, y: 0 };
    c.move_right(&b);
    assert_eq!(c, Cursor { x: 0, y: 1 });
    c.move_right(&b);
    assert_eq!(c, Cursor { x: 1, y: 1 });
    c.move_right(&b);
    assert_eq!(c, Cursor { x: 1, y: 1 });
}

#[test]
fn horizontal_moves_stay_in_bounds() {
    let b = buffer_of(&["ab", "", "xyz"]);
    let mut c = Cursor { x: 1, y: 0 };
    let moves = [true, true, true, true, true, true, true, true, false, false, false, false, false, false, false, false, false, true];
    for &right in moves.iter() {
        if right {
            c.move_right(&b);
        } else {
            c.move_left(&b);
        }
        assert!(c.y < b.lines.len());
        assert!(c.x <= b.lines[c.y].len());
    }
    assert_eq!(c, Cursor { x: 1, y: 0 });
}

#[test]
fn move_up_clamps_column_and_stops_at_top() {
    let b = buffer_of(&["ab", "abcdef"]);
    let mut c = Cursor { x: 5, y: 1 };
    c.move_up(&b);
    assert_eq!(c, Cursor { x: 2, y: 0 });
    c.move_up(&b);
    assert_eq!(c, Cursor { x: 2, y: 0 });
}

#[test]
fn move_down_clamps_column_and_parks_at_end() {
    let b = buffer_of(&["abcdef", "ab"]);
    let mut c = Cursor { x: 4, y: 0 };
    c.move_down(&b);
    assert_eq!(c, Cursor { x: 2, y: 1 });
    let mut d = Cursor { x: 0, y: 1 };
    d.move_down(&b);
    assert_eq!(d, Cursor { x: 2, y: 1 });
}

#[test]
fn insert_char_moves_past_it() {
    let mut b = buffer_of(&["ac"]);
    let mut c = Cursor { x: 1, y: 0 };
    c.insert_char(&mut b, 'b');
    assert_eq!(text(&b), vec!["abc"]);
    assert_eq!(c, Cursor { x: 2, y: 0 });
}

#[test]
fn insert_char_past_last_line_adds_lines() {
    let mut b = buffer_of(&["a"]);
    let mut c = Cursor { x: 0, y: 2 };
    c.insert_char(&mut b, 'z');
    assert_eq!(text(&b), vec!["a", "", "z"]);
    assert_eq!(c, Cursor { x: 1, y: 2 });
}

#[test]
fn backspace_deletes_left_character() {
    let mut b = buffer_of(&["abc"]);
    let mut c = Cursor { x: 2, y: 0 };
    c.backspace(&mut b);
    assert_eq!(text(&b), vec!["ac"]);
    assert_eq!(c, Cursor { x: 1, y: 0 });
}

#[test]
fn backspace_at_line_start_joins_lines() {
    let mut b = buffer_of(&["ab", "cd", "e"]);
    let mut c = Cursor { x: 0, y: 1 };
    c.backspace(&mut b);
    assert_eq!(text(&b), vec!["abcd", "e"]);
    assert_eq!(c, Cursor { x: 2, y: 0 });
}

#[test]
fn backspace_at_buffer_start_does_nothing() {
    let mut b = buffer_of(&["ab"]);
    let mut c = Cursor { x: 0, y: 0 };
    c.backspace(&mut b);
    assert_eq!(text(&b), vec!["ab"]);
    assert_eq!(c, Cursor { x: 0, y: 0 });
}

#[test]
fn insert_newline_splits_line() {
    let mut b = buffer_of(&["hello world"]);
    let mut c = Cursor { x: 5, y: 0 };
    b.insert_newline(&mut c);
    assert_eq!(text(&b), vec!["hello", " world"]);
    assert_eq!(c, Cursor { x: 0, y: 1 });
}

#[test]
fn insert_newline_past_end_appends_line() {
    let mut b = buffer_of(&["a"]);
    let mut c = Cursor { x: 0, y: 1 };
    b.insert_newline(&mut c);
    assert_eq!(text(&b), vec!["a", ""]);
    assert_eq!(c, Cursor { x: 0, y: 2 });
}

#[test]
fn newline_then_backspace_restores_line() {
    let mut b = buffer_of(&["first", "second line", "third"]);
    let mut c = Cursor { x: 3, y: 1 };
    b.insert_newline(&mut c);
    assert_eq!(text(&b), vec!["first", "sec", "ond line", "third"]);
    assert_eq!(c, Cursor { x: 0, y: 2 });
    c.backspace(&mut b);
    assert_eq!(text(&b), vec!["first", "second line", "third"]);
    assert_eq!(c, Cursor { x: 3, y: 1 });
}

#[test]
fn view_scrolls_and_never_goes_above_first_line() {
    let mut b = TextBuffer::new();
    b.view_go_down();
    assert_eq!(b.view_start, 2);
    b.view_go_up();
    b.view_go_up();
    assert_eq!(b.view_start, 1);
}

#[test]
fn duplicate_and_collapse() {
    let mut s = set_of(&[(2, 1)]);
    s.duplicate_primary();
    assert_eq!(s.cursors, vec![Cursor { x: 2, y: 1 }, Cursor { x: 2, y: 1 }]);
    s.cursors[0] = Cursor { x: 0, y: 0 };
    s.collapse();
    assert_eq!(s.cursors, vec![Cursor { x: 0, y: 0 }]);
}

#[test]
fn collapse_single_cursor_is_no_op() {
    let mut s = set_of(&[(3, 4)]);
    s.collapse();
    assert_eq!(s.cursors, vec![Cursor { x: 3, y: 4 }]);
    s.collapse();
    assert_eq!(s.cursors, vec![Cursor { x: 3, y: 4 }]);
}

#[test]
fn multi_cursor_insert_lands_at_each_column() {
    let mut b = buffer_of(&["abcdefgh"]);
    let mut s = set_of(&[(2, 0), (5, 0)]);
    s.insert_char(&mut b, 'X');
    assert_eq!(text(&b), vec!["abXcdeXfgh"]);
    assert_eq!(s.cursors, vec![Cursor { x: 3, y: 0 }, Cursor { x: 7, y: 0 }]);
}

#[test]
fn multi_cursor_insert_in_any_set_order() {
    let mut b = buffer_of(&["abcdefgh", "xy"]);
    let mut s = set_of(&[(5, 0), (1, 1), (2, 0)]);
    s.insert_char(&mut b, 'X');
    assert_eq!(text(&b), vec!["abXcdeXfgh", "xXy"]);
    assert_eq!(s.cursors, vec![Cursor { x: 7, y: 0 }, Cursor { x: 2, y: 1 }, Cursor { x: 3, y: 0 }]);
}

#[test]
fn duplicated_cursors_each_type() {
    let mut b = buffer_of(&["ab"]);
    let mut s = set_of(&[(1, 0)]);
    s.duplicate_primary();
    s.insert_char(&mut b, 'X');
    assert_eq!(text(&b), vec!["aXXb"]);
    assert_eq!(s.cursors, vec![Cursor { x: 2, y: 0 }, Cursor { x: 3, y: 0 }]);
}

#[test]
fn multi_cursor_newline_splits_every_line() {
    let mut b = buffer_of(&["zero", "one1", "two2", "three"]);
    let mut s = set_of(&[(1, 1), (3, 3)]);
    s.insert_newline(&mut b);
    assert_eq!(text(&b), vec!["zero", "o", "ne1", "two2", "thr", "ee"]);
    assert_eq!(b.lines.len(), 6);
    assert_eq!(s.cursors, vec![Cursor { x: 0, y: 2 }, Cursor { x: 0, y: 5 }]);
}

#[test]
fn multi_cursor_newline_on_one_line() {
    let mut b = buffer_of(&["abcdef"]);
    let mut s = set_of(&[(4, 0), (2, 0)]);
    s.insert_newline(&mut b);
    assert_eq!(text(&b), vec!["ab", "cd", "ef"]);
    assert_eq!(s.cursors, vec![Cursor { x: 0, y: 2 }, Cursor { x: 0, y: 1 }]);
}

#[test]
fn multi_cursor_backspace_on_separate_lines() {
    let mut b = buffer_of(&["abc", "def"]);
    let mut s = set_of(&[(3, 0), (1, 1)]);
    s.backspace(&mut b);
    assert_eq!(text(&b), vec!["ab", "ef"]);
    assert_eq!(s.cursors, vec![Cursor { x: 2, y: 0 }, Cursor { x: 0, y: 1 }]);
}

#[test]
fn multi_cursor_backspace_never_leaves_a_cursor_off_the_document() {
    let mut b = buffer_of(&["ab", "c"]);
    let mut s = set_of(&[(0, 1), (1, 1)]);
    s.backspace(&mut b);
    for c in s.cursors.iter() {
        assert!(c.y < b.lines.len());
        assert!(c.x <= b.lines[c.y].len());
    }
    assert_eq!(text(&b), vec!["bc"]);
}
