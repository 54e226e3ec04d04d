use flowmango_terminal::ansi::StyledSpan;
use flowmango_terminal::color::Rgba;
use flowmango_terminal::input::Key;
use flowmango_terminal::{Line, LineKind, State, TerminalView};

#[test]
fn layout_places_rows_and_cursor() {
    let mut st = State::new(10, "/home/u/p".to_string());
    st.push(Line::output("abcdefgh".to_string()));
    st.handle_key(&Key::Character("xyz".to_string()), "");
    let l = TerminalView::layout(&st, "/home/u", 4).unwrap();
    assert_eq!(l.row_map, vec![(0, 0), (0, 1)]);
    assert_eq!(l.cwd_rows, vec!["~/p"]);
    assert_eq!(l.prompt, "\u{276f} ");
    assert_eq!(l.input_rows, vec!["\u{276f} ", "xyz"]);
    assert_eq!(l.buf_visual_count, 2);
    assert_eq!(l.prompt_visual_start, 3);
    assert_eq!(l.total_visual, 5);
    assert_eq!(l.cursor_row, 4);
    assert_eq!(l.cursor_col, 1);
    assert_eq!(l.prompt_color, Rgba(200, 160, 255, 255));
    st.start_running();
    let l = TerminalView::layout(&st, "/home/u", 80).unwrap();
    assert_eq!(l.prompt, "\u{25cf} ");
    assert_eq!(l.prompt_color, Rgba(210, 120, 60, 255));
    assert_eq!(l.cursor_row, 2);
    assert_eq!(l.cursor_col, 5);
}

#[test]
fn row_texts_as_drawn() {
    let line = Line::output("\x1b[32mhello world\x1b[0m".to_string());
    assert_eq!(TerminalView::line_row_text(&line, 1, 6), "world");
    assert_eq!(TerminalView::line_row_text(&line, 5, 6), " ");
    assert_eq!(TerminalView::after_prompt("> ab", 2), "ab");
    assert_eq!(TerminalView::after_prompt("> ", 2), " ");
    assert_eq!(TerminalView::or_space(String::new()), " ");
}

#[test]
fn line_colors_and_spans() {
    let t = Rgba(1, 1, 1, 255);
    let e = Rgba(2, 2, 2, 255);
    assert_eq!(TerminalView::line_color(LineKind::Error, t, e), e);
    assert_eq!(TerminalView::line_color(LineKind::Echo, t, e), Rgba(100, 100, 100, 255));
    assert_eq!(TerminalView::line_color(LineKind::Output, t, e), t);
    assert_eq!(TerminalView::line_color(LineKind::Stderr, t, e), t);
    let spans = vec![
        StyledSpan { text: "a".to_string(), color: Some(e) },
        StyledSpan { text: String::new(), color: None },
    ];
    assert_eq!(
        TerminalView::display_spans(&spans, t),
        vec![("a".to_string(), e), (" ".to_string(), t)]
    );
}
