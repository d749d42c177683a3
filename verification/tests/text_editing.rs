use homelab::editor::{byte_offset_at_char, handle_text_input, move_cursor_vertically, Key, KeyCode};

fn chars(s: &str) -> Vec<char> {
    s.chars().collect()
}

fn typed(keys: &[Key], multiline: bool) -> (String, usize) {
    let mut buf: Vec<char> = Vec::new();
    let mut cursor: usize = 0;
    for k in keys {
        handle_text_input(&mut buf, &mut cursor, *k, multiline);
    }
    (buf.iter().collect(), cursor)
}

#[test]
fn typing_then_backspace_restores() {
    let k = |c| Key::plain(KeyCode::Char(c));
    assert_eq!(typed(&[k('h'), k('é')], false), ("hé".to_string(), 2));
    assert_eq!(typed(&[k('h'), k('é'), Key::plain(KeyCode::Backspace)], false), ("h".to_string(), 1));
}

#[test]
fn enter_only_breaks_lines_when_multiline() {
    let keys = [Key::plain(KeyCode::Char('a')), Key::plain(KeyCode::Enter), Key::plain(KeyCode::Char('b'))];
    assert_eq!(typed(&keys, true), ("a\nb".to_string(), 3));
    assert_eq!(typed(&keys, false), ("ab".to_string(), 2));
}

#[test]
fn cursor_moves_stay_in_field() {
    let mut buf = chars("abc");
    let mut cursor: usize = 0;
    handle_text_input(&mut buf, &mut cursor, Key::plain(KeyCode::Left), false);
    assert_eq!(cursor, 0);
    handle_text_input(&mut buf, &mut cursor, Key::plain(KeyCode::End), false);
    assert_eq!(cursor, 3);
    handle_text_input(&mut buf, &mut cursor, Key::plain(KeyCode::Right), false);
    assert_eq!(cursor, 3);
    handle_text_input(&mut buf, &mut cursor, Key::plain(KeyCode::Home), false);
    handle_text_input(&mut buf, &mut cursor, Key::plain(KeyCode::Delete), false);
    assert_eq!(buf, chars("bc"));
    assert_eq!(cursor, 0);
}

#[test]
fn vertical_moves_keep_column() {
    let t = chars("abc\nde\nfghij");
    assert_eq!(move_cursor_vertically(&t, 10, -1), 6);
    assert_eq!(move_cursor_vertically(&t, 1, 1), 5);
    assert_eq!(move_cursor_vertically(&t, 10, 1), 10);
    assert_eq!(move_cursor_vertically(&t, 2, -1), 2);
    assert_eq!(move_cursor_vertically(&t, 5, 1), 8);
}

#[test]
fn offset_past_line_end_clamps() {
    let t = chars("abc\nde");
    assert_eq!(byte_offset_at_char(&t, 4, 1), 5);
    assert_eq!(byte_offset_at_char(&t, 4, 5), 6);
    assert_eq!(byte_offset_at_char(&t, 0, 7), 3);
}
