use diary_tui::editor::Editor;

#[test]
fn new_editor_is_empty() {
    let e = Editor::new();
    assert_eq!(e.content.len(), 0);
    assert_eq!(e.cursor_position, 0);
    assert_eq!(e.scroll_offset, 0);
}

#[test]
fn set_content_moves_cursor_to_character_count() {
    let mut e = Editor::new();
    e.set_content(String::from("héllo"));
    assert_eq!(e.cursor_position, 5);
    assert_eq!(e.get_content(), "héllo");
    assert_eq!(e.scroll_offset, 0);
}

#[test]
fn insert_char_advances_cursor_and_grows_text() {
    let mut e = Editor::new();
    e.set_content(String::from("ab"));
    e.cursor_position = 1;
    e.insert_char('x');
    assert_eq!(e.get_content(), "axb");
    assert_eq!(e.cursor_position, 2);
}

#[test]
fn insert_count_accumulates() {
    let mut e = Editor::new();
    e.set_content(String::from("日記"));
    e.cursor_position = 1;
    let before = e.content.len();
    let p = e.cursor_position;
    e.insert_char('a');
    e.insert_char('b');
    e.insert_char('c');
    assert_eq!(e.content.len(), before + 3);
    assert_eq!(e.cursor_position, p + 3);
    assert_eq!(e.get_content(), "日abc記");
}

#[test]
fn insert_newline_inserts_separator() {
    let mut e = Editor::new();
    e.set_content(String::from("ab"));
    e.cursor_position = 1;
    e.insert_newline();
    assert_eq!(e.get_content(), "a\nb");
    assert_eq!(e.cursor_position, 2);
}

#[test]
fn delete_char_is_noop_at_start() {
    let mut e = Editor::new();
    e.set_content(String::from("abc"));
    e.cursor_position = 0;
    e.delete_char();
    assert_eq!(e.get_content(), "abc");
    assert_eq!(e.cursor_position, 0);
}

#[test]
fn delete_undoes_insert_at_same_position() {
    let mut e = Editor::new();
    e.set_content(String::from("día"));
    e.cursor_position = 2;
    e.insert_char('x');
    e.delete_char();
    assert_eq!(e.get_content(), "día");
    assert_eq!(e.cursor_position, 2);
}

#[test]
fn cursor_clamps_at_both_ends() {
    let mut e = Editor::new();
    e.set_content(String::from("ab"));
    e.move_cursor_right();
    assert_eq!(e.cursor_position, 2);
    e.move_cursor_left();
    e.move_cursor_left();
    e.move_cursor_left();
    assert_eq!(e.cursor_position, 0);
    e.move_cursor_right();
    assert_eq!(e.cursor_position, 1);
}

#[test]
fn line_col_counts_characters() {
    let mut e = Editor::new();
    e.set_content(String::from("ab\ncd"));
    e.cursor_position = 3;
    assert_eq!(e.get_cursor_line_col(), (1, 0));
    e.cursor_position = 2;
    assert_eq!(e.get_cursor_line_col(), (0, 2));
    e.cursor_position = 5;
    assert_eq!(e.get_cursor_line_col(), (1, 2));
}

#[test]
fn up_then_down_returns_to_start_when_lines_match() {
    let mut e = Editor::new();
    e.set_content(String::from("hello\nworld\nhi"));
    e.cursor_position = 9;
    e.move_cursor_up();
    assert_eq!(e.get_cursor_line_col(), (0, 3));
    e.move_cursor_down();
    assert_eq!(e.cursor_position, 9);
}

#[test]
fn up_then_down_stays_on_line_when_intermediate_shorter() {
    let mut e = Editor::new();
    e.set_content(String::from("hello\nhi\nworld"));
    e.cursor_position = 13;
    assert_eq!(e.get_cursor_line_col(), (2, 4));
    e.move_cursor_up();
    assert_eq!(e.get_cursor_line_col(), (1, 2));
    e.move_cursor_down();
    let (line, col) = e.get_cursor_line_col();
    assert_eq!(line, 2);
    assert_eq!(col, 2);
}

#[test]
fn up_is_noop_on_first_line() {
    let mut e = Editor::new();
    e.set_content(String::from("ab\ncd"));
    e.cursor_position = 1;
    e.move_cursor_up();
    assert_eq!(e.cursor_position, 1);
}

#[test]
fn down_is_noop_on_last_line() {
    let mut e = Editor::new();
    e.set_content(String::from("ab\ncd"));
    e.cursor_position = 4;
    e.move_cursor_down();
    assert_eq!(e.cursor_position, 4);
}

#[test]
fn display_lines_returns_exactly_height_entries() {
    let mut e = Editor::new();
    e.set_content(String::from("a\nb\nc"));
    let lines = e.get_display_lines(5);
    assert_eq!(lines.len(), 5);
    assert_eq!(lines, vec!["a", "b", "c", "", ""]);
    e.scroll_offset = 1;
    let lines = e.get_display_lines(2);
    assert_eq!(lines, vec!["b", "c"]);
}

#[test]
fn display_lines_beyond_content_are_empty() {
    let mut e = Editor::new();
    e.set_content(String::from("a\nb"));
    e.scroll_offset = 10;
    let lines = e.get_display_lines(3);
    assert_eq!(lines, vec!["", "", ""]);
    let empty = Editor::new();
    assert_eq!(empty.get_display_lines(2), vec!["", ""]);
}

#[test]
fn display_lines_show_trailing_empty_line() {
    let mut e = Editor::new();
    e.set_content(String::from("a\n"));
    let lines = e.get_display_lines(3);
    assert_eq!(lines, vec!["a", "", ""]);
}

#[test]
fn adjust_scroll_keeps_cursor_line_in_window() {
    let mut e = Editor::new();
    e.set_content(String::from("0\n1\n2\n3\n4\n5\n6\n7"));
    e.cursor_position = 14;
    assert_eq!(e.get_cursor_line_col(), (7, 0));
    e.adjust_scroll(3);
    assert_eq!(e.scroll_offset, 5);
    e.cursor_position = 2;
    e.adjust_scroll(3);
    assert_eq!(e.scroll_offset, 1);
    e.cursor_position = 4;
    e.adjust_scroll(3);
    assert_eq!(e.scroll_offset, 1);
}
