use flowmango_terminal::state::char_to_byte;
use flowmango_terminal::tabbar::{tab_accent_name, tab_name};
use flowmango_terminal::{Line, TerminalView};

fn s(v: &[&str]) -> Vec<String> {
    v.iter().map(|x| x.to_string()).collect()
}

#[test]
fn wrap_breaks_after_whitespace() {
    assert_eq!(TerminalView::wrap("ab cd", 3), s(&["ab ", "cd"]));
    assert_eq!(TerminalView::wrap("hello world foo", 8), s(&["hello ", "world ", "foo"]));
}

#[test]
fn wrap_cuts_long_words() {
    assert_eq!(TerminalView::wrap("abcdefg", 3), s(&["abc", "def", "g"]));
}

#[test]
fn wrap_drops_spaces_at_breaks() {
    assert_eq!(TerminalView::wrap("ab    cd", 3), s(&["ab ", "cd"]));
    assert_eq!(TerminalView::wrap("abc   ", 3), s(&["abc"]));
}

#[test]
fn wrap_edge_cases() {
    assert_eq!(TerminalView::wrap("", 5), s(&[""]));
    assert_eq!(TerminalView::wrap("abc", 0), s(&["abc"]));
    assert_eq!(TerminalView::wrap("abc", 3), s(&["abc"]));
    assert_eq!(TerminalView::wrap("ééé", 2), s(&["éé", "é"]));
}

#[test]
fn wrap_keeps_all_non_space_characters() {
    let text = "the quick  brown fox jumps over the lazy dog";
    let rows = TerminalView::wrap(text, 7);
    assert!(rows.iter().all(|r| r.chars().count() <= 7 && !r.is_empty()));
    let joined: String = rows.concat().chars().filter(|c| *c != ' ').collect();
    let orig: String = text.chars().filter(|c| *c != ' ').collect();
    assert_eq!(joined, orig);
}

#[test]
fn display_cwd_shows_home_as_tilde() {
    assert_eq!(TerminalView::display_cwd("/home/u/src", "/home/u"), "~/src");
    assert_eq!(TerminalView::display_cwd("/home/u", "/home/u"), "~");
    assert_eq!(TerminalView::display_cwd("/tmp", "/home/u"), "/tmp");
    assert_eq!(TerminalView::display_cwd("/tmp", ""), "/tmp");
    assert_eq!(TerminalView::display_cwd("/home/user2", "/home/u"), "~ser2");
}

#[test]
fn longest_common_prefix_examples() {
    assert_eq!(TerminalView::longest_common_prefix(&s(&["foobar", "foobaz", "foo"])), "foo");
    assert_eq!(TerminalView::longest_common_prefix(&s(&["abc"])), "abc");
    assert_eq!(TerminalView::longest_common_prefix(&s(&["abc", "xyz"])), "");
    assert_eq!(TerminalView::longest_common_prefix(&[]), "");
    assert_eq!(TerminalView::longest_common_prefix(&s(&["été", "étui"])), "ét");
}

#[test]
fn row_count_and_row_map() {
    let lines = vec![
        Line::output("\x1b[31mabcdef\x1b[0m".to_string()),
        Line::output("   ".to_string()),
        Line::output("ab".to_string()),
    ];
    assert_eq!(TerminalView::row_count(&lines[0], 4), 2);
    assert_eq!(TerminalView::row_count(&lines[1], 4), 1);
    assert_eq!(
        TerminalView::build_row_map(&lines, 4),
        vec![(0, 0), (0, 1), (1, 0), (2, 0)]
    );
    assert_eq!(TerminalView::build_row_map(&[], 4), vec![]);
    assert_eq!(TerminalView::row_count(&Line::output("日本語です".to_string()), 4), 2);
    assert_eq!(TerminalView::row_count(&Line::output("日本語".to_string()), 3), 1);
}

#[test]
fn char_to_byte_counts_utf8_bytes() {
    assert_eq!(char_to_byte("héllo", 0), 0);
    assert_eq!(char_to_byte("héllo", 2), 3);
    assert_eq!(char_to_byte("héllo", 5), 6);
    assert_eq!(char_to_byte("héllo", 99), 6);
    assert_eq!(char_to_byte("", 3), 0);
}

#[test]
fn tab_names() {
    assert_eq!(tab_name(0), "tab_term");
    assert_eq!(tab_name(1), "tab_view");
    assert_eq!(tab_name(2), "tab_chat");
    assert_eq!(tab_name(7), "tab_chat");
    assert_eq!(tab_accent_name(0), "tab_accent_0");
    assert_eq!(tab_accent_name(12), "tab_accent_12");
    assert_eq!(tab_accent_name(usize::MAX), format!("tab_accent_{}", usize::MAX));
    let names: Vec<String> = (0..25).map(tab_accent_name).collect();
    for i in 0..names.len() {
        for j in 0..names.len() {
            assert_eq!(names[i] == names[j], i == j);
        }
    }
}
