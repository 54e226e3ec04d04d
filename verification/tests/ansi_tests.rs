use flowmango_terminal::ansi::{parse_ansi, StyledSpan};
use flowmango_terminal::color::{ansi16, ansi256_color, Rgba};
use flowmango_terminal::TerminalView;

fn spans(s: &str) -> Vec<(String, Option<Rgba>)> {
    parse_ansi(s).into_iter().map(|sp: StyledSpan| (sp.text, sp.color)).collect()
}

#[test]
fn plain_text_is_one_uncolored_span() {
    assert_eq!(spans("hello world"), vec![("hello world".to_string(), None)]);
}

#[test]
fn empty_text_is_a_single_space() {
    assert_eq!(spans(""), vec![(" ".to_string(), None)]);
    assert_eq!(spans("\x1b[31m"), vec![(" ".to_string(), None)]);
    assert_eq!(spans("\r"), vec![(" ".to_string(), None)]);
}

#[test]
fn sgr_colors_start_new_spans() {
    assert_eq!(
        spans("a\x1b[31mb\x1b[0mc"),
        vec![
            ("a".to_string(), None),
            ("b".to_string(), Some(Rgba(205, 49, 49, 255))),
            ("c".to_string(), None),
        ]
    );
}

#[test]
fn bright_colors_and_reset_39() {
    assert_eq!(
        spans("\x1b[92mok\x1b[39m!"),
        vec![("ok".to_string(), Some(Rgba(35, 209, 139, 255))), ("!".to_string(), None)]
    );
}

#[test]
fn palette_256_and_direct_color() {
    assert_eq!(spans("\x1b[38;5;196mX"), vec![("X".to_string(), Some(Rgba(255, 0, 0, 255)))]);
    assert_eq!(spans("\x1b[38;2;1;2;3mX"), vec![("X".to_string(), Some(Rgba(1, 2, 3, 255)))]);
    // values are taken modulo 256
    assert_eq!(spans("\x1b[38;2;300;0;256mX"), vec![("X".to_string(), Some(Rgba(44, 0, 0, 255)))]);
    assert_eq!(spans("\x1b[38;5;257mX"), vec![("X".to_string(), Some(Rgba(205, 49, 49, 255)))]);
}

#[test]
fn incomplete_38_is_ignored() {
    assert_eq!(spans("\x1b[31;38;5mX"), vec![("X".to_string(), Some(Rgba(205, 49, 49, 255)))]);
}

#[test]
fn bold_and_background_codes_keep_the_color() {
    assert_eq!(spans("\x1b[32;1;44mX"), vec![("X".to_string(), Some(Rgba(13, 188, 121, 255)))]);
}

#[test]
fn other_csi_sequences_are_dropped_without_closing_the_run() {
    assert_eq!(spans("ab\x1b[2Kcd"), vec![("abcd".to_string(), None)]);
    assert_eq!(spans("ab\rcd"), vec![("abcd".to_string(), None)]);
}

#[test]
fn parameters_parse_like_u32() {
    // "+31" is 31, an overflowing number is 0 (reset), a lone "+" is 0
    assert_eq!(spans("\x1b[+31mX"), vec![("X".to_string(), Some(Rgba(205, 49, 49, 255)))]);
    assert_eq!(spans("\x1b[31;99999999999mX"), vec![("X".to_string(), None)]);
    assert_eq!(spans("\x1b[31;+mX"), vec![("X".to_string(), None)]);
    // empty parameters mean 0
    assert_eq!(spans("\x1b[31m\x1b[mX"), vec![("X".to_string(), None)]);
}

#[test]
fn non_digit_parameters_are_zero() {
    // a field with other characters than digits counts as 0
    assert_eq!(spans("\x1b[38;5;9é9mX"), vec![("X".to_string(), Some(Rgba(30, 30, 30, 255)))]);
}

#[test]
fn unterminated_escape_swallows_the_rest() {
    assert_eq!(spans("ab\x1b[31"), vec![("ab".to_string(), None)]);
    // a lone escape is kept as a character
    assert_eq!(spans("a\x1bb"), vec![("a\u{1b}b".to_string(), None)]);
}

#[test]
fn utf8_text_is_kept_whole() {
    assert_eq!(spans("é"), vec![("é".to_string(), None)]);
    assert_eq!(spans("日本語 ✓ e\u{301} 🦀"), vec![("日本語 ✓ e\u{301} 🦀".to_string(), None)]);
    assert_eq!(
        spans("\x1b[32m日本\x1b[0m語"),
        vec![("日本".to_string(), Some(Rgba(13, 188, 121, 255))), ("語".to_string(), None)]
    );
    assert_eq!(TerminalView::strip_ansi("é"), "é");
    assert_eq!(TerminalView::strip_ansi("\x1b[1m日本\x1b[0m\r🦀"), "日本🦀");
}

#[test]
fn span_texts_make_up_the_stripped_text() {
    let s = "\x1b[1;31merror\x1b[0m: \x1b[33mwarn\x1b[0m\r done";
    let joined: String = parse_ansi(s).into_iter().map(|sp| sp.text).collect();
    assert_eq!(joined, TerminalView::strip_ansi(s));
    assert!(parse_ansi(s).iter().all(|sp| !sp.text.is_empty()));
}

#[test]
fn strip_ansi_examples() {
    assert_eq!(TerminalView::strip_ansi("\x1b[31mred\x1b[0m"), "red");
    assert_eq!(TerminalView::strip_ansi("a\r\nb"), "a\nb");
    assert_eq!(TerminalView::strip_ansi("x\x1b[1"), "x");
    assert_eq!(TerminalView::strip_ansi("plain"), "plain");
}

#[test]
fn palette_values() {
    assert_eq!(ansi16(0), Rgba(30, 30, 30, 255));
    assert_eq!(ansi16(15), Rgba(229, 229, 229, 255));
    assert_eq!(ansi256_color(3), Rgba(229, 229, 16, 255));
    assert_eq!(ansi256_color(16), Rgba(0, 0, 0, 255));
    assert_eq!(ansi256_color(21), Rgba(0, 0, 255, 255));
    assert_eq!(ansi256_color(196), Rgba(255, 0, 0, 255));
    assert_eq!(ansi256_color(231), Rgba(255, 255, 255, 255));
    assert_eq!(ansi256_color(67), Rgba(95, 135, 175, 255));
    assert_eq!(ansi256_color(232), Rgba(8, 8, 8, 255));
    assert_eq!(ansi256_color(255), Rgba(238, 238, 238, 255));
}
