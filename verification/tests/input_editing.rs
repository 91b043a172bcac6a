use corust_tui::app::{App, Block};

fn app() -> App {
    App::new(String::new())
}

fn typed(s: &str) -> App {
    let mut a = app();
    for c in s.chars() {
        a.insert_char(c);
    }
    a
}

#[test]
fn typing_moves_cursor_by_utf8_width() {
    let a = typed("aé中😀");
    assert_eq!(a.input, "aé中😀");
    assert_eq!(a.cursor, 1 + 2 + 3 + 4);
    assert_eq!(a.cursor, a.input.len());
}

#[test]
fn insert_then_delete_restores_input_and_cursor() {
    let mut a = typed("héllo");
    a.move_cursor_left();
    a.move_cursor_left();
    a.move_cursor_left();
    let (input, cursor) = (a.input.clone(), a.cursor);
    assert_eq!(cursor, 3);
    for c in ['x', 'ß', '語', '🦀'] {
        a.insert_char(c);
        a.delete_char_before_cursor();
        assert_eq!(a.input, input);
        assert_eq!(a.cursor, cursor);
    }
}

#[test]
fn insert_in_the_middle() {
    let mut a = typed("ac");
    a.move_cursor_left();
    a.insert_char('b');
    assert_eq!(a.input, "abc");
    assert_eq!(a.cursor, 2);
}

#[test]
fn delete_removes_the_whole_character_before_the_cursor() {
    let mut a = typed("a中b");
    a.move_cursor_left();
    a.delete_char_before_cursor();
    assert_eq!(a.input, "ab");
    assert_eq!(a.cursor, 1);
}

#[test]
fn delete_at_start_does_nothing() {
    let mut a = typed("ab");
    a.move_cursor_left();
    a.move_cursor_left();
    a.move_cursor_left();
    assert_eq!(a.cursor, 0);
    a.delete_char_before_cursor();
    assert_eq!(a.input, "ab");
    assert_eq!(a.cursor, 0);
}

#[test]
fn cursor_moves_by_characters() {
    let mut a = typed("é😀x");
    assert_eq!(a.cursor, 7);
    a.move_cursor_left();
    assert_eq!(a.cursor, 6);
    a.move_cursor_left();
    assert_eq!(a.cursor, 2);
    a.move_cursor_left();
    assert_eq!(a.cursor, 0);
    a.move_cursor_right();
    assert_eq!(a.cursor, 2);
    a.move_cursor_right();
    assert_eq!(a.cursor, 6);
    a.move_cursor_right();
    assert_eq!(a.cursor, 7);
    a.move_cursor_right();
    assert_eq!(a.cursor, 7);
}

#[test]
fn left_then_right_and_right_then_left_return() {
    let mut a = typed("a中b");
    a.move_cursor_left();
    let c = a.cursor;
    a.move_cursor_left();
    a.move_cursor_right();
    assert_eq!(a.cursor, c);
    a.move_cursor_right();
    a.move_cursor_left();
    assert_eq!(a.cursor, c);
}

#[test]
fn submit_returns_trimmed_text_and_clears_the_line() {
    let mut a = typed("  hello world \t");
    a.scroll_offset = 5;
    let r = a.submit_input();
    assert_eq!(r.as_deref(), Some("hello world"));
    assert_eq!(a.input, "");
    assert_eq!(a.cursor, 0);
    assert_eq!(a.scroll_offset, 0);
    match a.blocks.last() {
        Some(Block::UserInput { text }) => assert_eq!(text, "hello world"),
        _ => panic!("expected a user block"),
    }
    assert_eq!(a.blocks.len(), 2);
}

#[test]
fn submit_of_only_whitespace_changes_nothing() {
    let mut a = typed(" \u{3000}\n\u{a0}");
    a.scroll_offset = 5;
    let cursor = a.cursor;
    assert_eq!(a.submit_input(), None);
    assert_eq!(a.input, " \u{3000}\n\u{a0}");
    assert_eq!(a.cursor, cursor);
    assert_eq!(a.scroll_offset, 5);
    assert_eq!(a.blocks.len(), 1);
}

#[test]
fn submit_trims_unicode_whitespace() {
    let mut a = typed("\u{2003}hi\u{205f}");
    assert_eq!(a.submit_input().as_deref(), Some("hi"));
}

#[test]
fn submit_of_empty_line_is_none() {
    let mut a = app();
    assert_eq!(a.submit_input(), None);
}

#[test]
fn submitted_text_is_already_trimmed() {
    let mut a = typed(" \u{2028} a b \u{3000}");
    let t = a.submit_input().unwrap();
    assert_eq!(t, "a b");
    for c in t.chars() {
        a.insert_char(c);
    }
    assert_eq!(a.submit_input().as_deref(), Some("a b"));
}
