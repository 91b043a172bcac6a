use corust_tui::app::{App, Block, DiffLine};
use corust_tui::event::{Event, PermissionOption, PermissionOptionKind, ToolCallUpdate, ToolCallUpdateFields};
use corust_tui::text::{split_lines, string_from_chars, trim_chars, chars_of, push_decimal};
use corust_tui::ui::{
    input_cursor, input_line, screen_areas, scroll_area_lines, scroll_area_top, scroll_position,
    status_bar, Color, Rect, StyledLine,
};
use futures::channel::oneshot;

fn line_text(l: &StyledLine) -> String {
    l.spans.iter().map(|s| s.text.as_str()).collect()
}

fn all_text(ls: &[StyledLine]) -> Vec<String> {
    ls.iter().map(line_text).collect()
}

#[test]
fn lines_follow_str_lines() {
    for s in ["", "a", "a\n", "a\r\nb", "a\rb\r", "\n\n", "x\n\ny", "\r\n", "one\ntwo\r\n"] {
        let expected: Vec<String> = s.lines().map(|l| l.to_string()).collect();
        assert_eq!(split_lines(s), expected, "input {s:?}");
    }
}

#[test]
fn trim_follows_str_trim() {
    for s in ["", "   ", " a b ", "\u{3000}x\u{2029}", "x", "\u{200b}y"] {
        let v: Vec<char> = s.chars().collect();
        let t: String = trim_chars(&v).into_iter().collect();
        assert_eq!(t, s.trim(), "input {s:?}");
    }
}

#[test]
fn chars_round_trip() {
    let s = "héllo 中 😀";
    let v = chars_of(s);
    assert_eq!(v.len(), 9);
    assert_eq!(string_from_chars(&v), s);
}

#[test]
fn decimal_numerals() {
    for n in [0u64, 7, 10, 42, 1000, u64::MAX] {
        let mut s = String::from("n=");
        push_decimal(&mut s, n);
        assert_eq!(s, format!("n={n}"));
    }
}

#[test]
fn status_bar_shows_model_cwd_and_branch() {
    let mut a = App::new("/work".to_string());
    assert_eq!(line_text(&status_bar(&a)), "/work");
    a.status.model = "helperbot".to_string();
    a.status.git_branch = Some("main".to_string());
    let l = status_bar(&a);
    assert_eq!(line_text(&l), "helperbot │ /work │ main");
    assert_eq!(l.spans[0].style.fg, Some(Color::Cyan));
    assert_eq!(l.spans[2].style.fg, Some(Color::Blue));
    assert_eq!(l.spans[4].style.fg, Some(Color::Magenta));
    assert_eq!(l.style.bg, Some(Color::DarkGray));
}

#[test]
fn scroll_area_renders_each_block_then_a_blank_line() {
    let mut a = App::new(String::new());
    a.blocks.clear();
    a.blocks.push(Block::UserInput { text: "hi".to_string() });
    a.blocks.push(Block::AgentText { content: "l1\nl2".to_string(), streaming: false });
    a.blocks.push(Block::Thinking { content: "a\nlast".to_string(), collapsed: true });
    a.blocks.push(Block::ToolCall {
        id: "x".to_string(),
        title: "Read".to_string(),
        status: "Completed".to_string(),
        locations: vec![],
        output: None,
    });
    a.blocks.push(Block::Diff {
        path: "f.rs".to_string(),
        lines: vec![DiffLine::Remove("a".to_string()), DiffLine::Add("b".to_string()), DiffLine::Context("c".to_string())],
    });
    a.blocks.push(Block::PermissionRequest { title: "Old".to_string(), resolved: Some("Allow once".to_string()) });
    a.blocks.push(Block::System { message: "note".to_string() });
    let (tx, _rx) = oneshot::channel();
    a.handle_acp_event(Event::PermissionRequest {
        tool_call: ToolCallUpdate {
            tool_call_id: "x".to_string(),
            fields: ToolCallUpdateFields { status: None, title: Some("Write".to_string()), content: None },
        },
        options: vec![
            PermissionOption { name: "Yes".to_string(), kind: PermissionOptionKind::AllowOnce },
            PermissionOption { name: "No".to_string(), kind: PermissionOptionKind::RejectAlways },
        ],
        respond: tx,
    });
    let lines = scroll_area_lines(&a);
    assert_eq!(
        all_text(&lines),
        vec![
            "> hi", "",
            "l1", "l2", "",
            "[thinking] last", "",
            "[tool] Read (Completed)", "",
            "[diff] f.rs", "-a", "+b", " c", "",
            "[permission] Old -> Allow once", "",
            "note", "",
            "[permission] Write", "  [0] Yes (AllowOnce)", "  [1] No (RejectAlways)", "",
        ]
    );
    assert!(lines[0].spans[0].style.bold);
    assert_eq!(lines[0].spans[0].style.fg, Some(Color::Green));
    assert!(lines[5].spans[0].style.italic);
    assert_eq!(lines[10].spans[0].style.fg, Some(Color::Red));
    assert_eq!(lines[11].spans[0].style.fg, Some(Color::Green));
    assert!(lines[18].spans[0].style.bold);
}

#[test]
fn empty_thinking_shows_an_empty_last_line() {
    let mut a = App::new(String::new());
    a.blocks.clear();
    a.blocks.push(Block::Thinking { content: String::new(), collapsed: false });
    assert_eq!(all_text(&scroll_area_lines(&a)), vec!["[thinking] ", ""]);
}

#[test]
fn scroll_position_rests_at_the_bottom() {
    assert_eq!(scroll_position(100, 20, 0), 80);
    assert_eq!(scroll_position(100, 20, 30), 50);
    assert_eq!(scroll_position(100, 20, 500), 0);
    assert_eq!(scroll_position(10, 20, 0), 0);
    assert_eq!(scroll_position(70000, 0, 0), (70000u32 % 65536) as u16);
}

#[test]
fn input_bar_and_cursor_cell() {
    let mut a = App::new(String::new());
    for c in "a中b".chars() {
        a.insert_char(c);
    }
    a.move_cursor_left();
    assert_eq!(line_text(&input_line(&a)), "> a中b");
    let area = Rect { x: 3, y: 10, width: 40, height: 3 };
    assert_eq!(input_cursor(&a, area), (3 + 2 + 2, 11));
}

#[test]
fn screen_is_status_scroll_and_input() {
    let (status, scroll, input) = screen_areas(Rect { x: 0, y: 0, width: 80, height: 24 });
    assert_eq!(status, Rect { x: 0, y: 0, width: 80, height: 1 });
    assert_eq!(scroll, Rect { x: 0, y: 1, width: 80, height: 20 });
    assert_eq!(input, Rect { x: 0, y: 21, width: 80, height: 3 });
}

#[test]
fn scroll_counts_wrapped_rows_so_the_latest_row_shows() {
    let mut a = App::new(String::new());
    a.blocks.clear();
    a.blocks.push(Block::System { message: "aaaa bbbb cccc".to_string() });
    a.blocks.push(Block::UserInput { text: "hi".to_string() });
    let lines = scroll_area_lines(&a);
    assert_eq!(lines.len(), 4);
    // At width 5 the notice wraps into three rows: 3 + 1 + 1 + 1 = 6 rows.
    let area = Rect { x: 0, y: 0, width: 5, height: 3 };
    assert_eq!(scroll_area_top(&lines, area, 0), 3);
    assert_eq!(scroll_area_top(&lines, area, 1), 2);
    assert_eq!(scroll_area_top(&lines, area, 9), 0);
    // Without wrapping (wide area) the count is the number of lines.
    let wide = Rect { x: 0, y: 0, width: 80, height: 3 };
    assert_eq!(scroll_area_top(&lines, wide, 0), 1);
    // A zero-width area has no rows.
    let none = Rect { x: 0, y: 0, width: 0, height: 3 };
    assert_eq!(scroll_area_top(&lines, none, 0), 0);
}
