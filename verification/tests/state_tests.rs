use flowmango_terminal::color::Rgba;
use flowmango_terminal::command::{CdResult, CommandPlan};
use flowmango_terminal::complete::{DirEntryName, TabQuery};
use flowmango_terminal::input::{Key, KeyOutcome};
use flowmango_terminal::state::StreamMsg;
use flowmango_terminal::{Line, LineKind, State};

fn texts(st: &State) -> Vec<String> {
    st.buf.iter().map(|l| l.text.clone()).collect()
}

fn typed(st: &mut State, s: &str) {
    let out = st.handle_key(&Key::Character(s.to_string()), "/home/u");
    assert!(matches!(out, KeyOutcome::Handled));
}

fn fresh() -> State {
    State::new(100, "/home/u/proj".to_string())
}

#[test]
fn new_state_is_empty() {
    let st = State::new(5, "/tmp".to_string());
    assert!(st.buf.is_empty());
    assert_eq!(st.input, "");
    assert_eq!(st.cursor_col, 0);
    assert!(!st.running);
    assert!(st.dirty);
    assert_eq!(st.scrollback, 5);
    assert_eq!(st.cwd, "/tmp");
    assert_eq!(st.total_lines(), 1);
}

#[test]
fn push_keeps_the_newest_lines() {
    let mut st = State::new(2, "/".to_string());
    st.dirty = false;
    st.push(Line::output("a".to_string()));
    assert!(st.dirty);
    st.push(Line::output("b".to_string()));
    st.push(Line::output("c".to_string()));
    assert_eq!(texts(&st), vec!["b", "c"]);
    assert_eq!(st.total_lines(), 3);
    let mut z = State::new(0, "/".to_string());
    z.push(Line::output("x".to_string()));
    assert!(z.buf.is_empty());
}

#[test]
fn push_many_pushes_in_order() {
    let mut st = State::new(2, "/".to_string());
    st.push_many(vec![
        Line::output("1".to_string()),
        Line::stderr("2".to_string()),
        Line::error("3".to_string()),
    ]);
    assert_eq!(texts(&st), vec!["2", "3"]);
    assert_eq!(st.buf[0].kind, LineKind::Stderr);
    assert_eq!(st.buf[1].kind, LineKind::Error);
}

#[test]
fn drain_stream_applies_messages() {
    let mut st = fresh();
    st.start_running();
    assert!(!st.drain_stream(vec![]));
    assert!(st.running);
    let changed = st.drain_stream(vec![
        StreamMsg::Stdout("out".to_string()),
        StreamMsg::Stderr("err".to_string()),
        StreamMsg::Done(Some(2)),
    ]);
    assert!(changed);
    assert!(!st.running);
    assert_eq!(texts(&st), vec!["out", "err", "exit 2"]);
    assert_eq!(st.buf[0].kind, LineKind::Output);
    assert_eq!(st.buf[1].kind, LineKind::Stderr);
    assert_eq!(st.buf[2].kind, LineKind::Error);
    st.start_running();
    st.drain_stream(vec![StreamMsg::Done(Some(0)), StreamMsg::Done(None), StreamMsg::Done(Some(-7))]);
    assert_eq!(texts(&st), vec!["out", "err", "exit 2", "exit -7"]);
    st.drain_stream(vec![StreamMsg::Done(Some(i32::MIN))]);
    assert_eq!(texts(&st).last().unwrap(), "exit -2147483648");
}

#[test]
fn typing_inserts_at_the_cursor() {
    let mut st = fresh();
    typed(&mut st, "hllo");
    assert_eq!(st.cursor_col, 4);
    st.handle_key(&Key::Home, "");
    st.handle_key(&Key::ArrowRight, "");
    typed(&mut st, "e");
    assert_eq!(st.input, "hello");
    assert_eq!(st.cursor_col, 2);
    // control characters inside typed text are dropped
    typed(&mut st, "x\u{7f}y");
    assert_eq!(st.input, "hexyllo");
    assert_eq!(st.cursor_col, 4);
}

#[test]
fn backspace_undoes_typing() {
    let mut st = fresh();
    typed(&mut st, "ab");
    st.handle_key(&Key::ArrowLeft, "");
    typed(&mut st, "é");
    assert_eq!(st.input, "aéb");
    st.handle_key(&Key::Backspace, "");
    assert_eq!(st.input, "ab");
    assert_eq!(st.cursor_col, 1);
    st.handle_key(&Key::Delete, "");
    assert_eq!(st.input, "b");
    st.handle_key(&Key::Backspace, "");
    assert_eq!(st.input, "b");
    assert_eq!(st.cursor_col, 0);
}

#[test]
fn cursor_moves_stay_in_the_input() {
    let mut st = fresh();
    typed(&mut st, "abc");
    st.handle_key(&Key::ArrowRight, "");
    assert_eq!(st.cursor_col, 3);
    st.handle_key(&Key::Home, "");
    st.handle_key(&Key::ArrowLeft, "");
    assert_eq!(st.cursor_col, 0);
    st.handle_key(&Key::End, "");
    assert_eq!(st.cursor_col, 3);
    st.handle_key(&Key::Space, "");
    assert_eq!(st.input, "abc ");
    assert_eq!(st.cursor_col, 4);
    st.handle_key(&Key::Other, "");
    assert_eq!(st.input, "abc ");
}

#[test]
fn control_keys() {
    let mut st = fresh();
    typed(&mut st, "hello world");
    typed(&mut st, "\u{1}");
    assert_eq!(st.cursor_col, 0);
    typed(&mut st, "\u{5}");
    assert_eq!(st.cursor_col, 11);
    for _ in 0..5 {
        st.handle_key(&Key::ArrowLeft, "");
    }
    typed(&mut st, "\u{b}");
    assert_eq!(st.input, "hello ");
    assert_eq!(st.cursor_col, 6);
    st.handle_key(&Key::ArrowLeft, "");
    typed(&mut st, "\u{15}");
    assert_eq!(st.input, " ");
    assert_eq!(st.cursor_col, 0);
}

#[test]
fn ctrl_c_kills_and_ctrl_l_clears() {
    let mut st = fresh();
    st.push(Line::output("old".to_string()));
    typed(&mut st, "partial");
    st.start_running();
    // while running only Ctrl-C does anything
    assert!(matches!(st.handle_key(&Key::Enter, ""), KeyOutcome::Handled));
    assert!(matches!(st.handle_key(&Key::Character("x".to_string()), ""), KeyOutcome::Handled));
    assert_eq!(st.input, "partial");
    assert!(matches!(st.handle_key(&Key::Character("\u{3}".to_string()), ""), KeyOutcome::Kill));
    assert!(!st.running);
    assert_eq!(st.input, "");
    assert_eq!(texts(&st), vec!["old", "^C"]);
    assert_eq!(st.buf[1].kind, LineKind::Echo);
    st.slot_count = 9;
    assert!(matches!(st.handle_key(&Key::Character("\u{c}".to_string()), ""), KeyOutcome::Clear));
    assert!(st.buf.is_empty());
    assert_eq!(st.slot_count, 0);
}

#[test]
fn enter_echoes_and_runs() {
    let mut st = fresh();
    typed(&mut st, "  ls -l ");
    match st.handle_key(&Key::Enter, "/home/u") {
        KeyOutcome::Run(cmd) => assert_eq!(cmd, "ls -l"),
        _ => panic!("expected a command"),
    }
    assert_eq!(st.input, "");
    assert_eq!(st.cursor_col, 0);
    assert_eq!(st.buf.len(), 2);
    let cwd_spans = st.buf[0].get_spans().to_vec();
    assert_eq!(cwd_spans.len(), 1);
    assert_eq!(cwd_spans[0].text, "~/proj");
    assert_eq!(cwd_spans[0].color, Some(Rgba(90, 90, 110, 255)));
    let echo = st.buf[1].get_spans().to_vec();
    assert_eq!(echo[0].text, "\u{276f} ");
    assert_eq!(echo[1].text, "  ls -l ");
    assert_eq!(echo[1].color, Some(Rgba(100, 100, 100, 255)));
    assert!(matches!(st.handle_key(&Key::Enter, "/home/u"), KeyOutcome::ScrollToBottom));
}

#[test]
fn history_browsing() {
    let mut st = fresh();
    for c in ["one", "two", "two", "three"] {
        st.plan_command(c, "/w", None);
    }
    assert_eq!(st.history, vec!["one", "two", "three"]);
    st.handle_key(&Key::ArrowUp, "");
    assert_eq!(st.input, "three");
    assert_eq!(st.cursor_col, 5);
    st.handle_key(&Key::ArrowUp, "");
    st.handle_key(&Key::ArrowUp, "");
    st.handle_key(&Key::ArrowUp, "");
    assert_eq!(st.input, "one");
    assert_eq!(st.history_idx, Some(0));
    st.handle_key(&Key::ArrowDown, "");
    assert_eq!(st.input, "two");
    st.handle_key(&Key::ArrowDown, "");
    st.handle_key(&Key::ArrowDown, "");
    assert_eq!(st.input, "");
    assert_eq!(st.history_idx, None);
    st.handle_key(&Key::ArrowDown, "");
    assert_eq!(st.input, "");
}

#[test]
fn plan_builtin_commands() {
    let mut st = fresh();
    assert!(matches!(st.plan_command("   ", "/w", None), CommandPlan::Nothing));
    assert!(st.history.is_empty());
    assert!(matches!(st.plan_command("pwd", "/w/x", None), CommandPlan::Done));
    assert_eq!(texts(&st), vec!["/w/x"]);
    assert!(matches!(st.plan_command(" cls", "/w", None), CommandPlan::Clear));
    assert!(st.buf.is_empty());
    assert!(matches!(st.plan_command("clear", "/w", None), CommandPlan::Clear));
    match st.plan_command("echo hi", "/w", None) {
        CommandPlan::Spawn(c) => assert_eq!(c, "echo hi"),
        _ => panic!("expected spawn"),
    }
    assert_eq!(st.history, vec!["pwd", "cls", "clear", "echo hi"]);
}

fn cd_target(st: &mut State, cmd: &str, home: Option<&str>) -> String {
    match st.plan_command(cmd, "/w", home) {
        CommandPlan::ChangeDir(t) => t,
        _ => panic!("expected cd"),
    }
}

#[test]
fn plan_cd_targets() {
    let mut st = fresh();
    assert_eq!(cd_target(&mut st, "cd", Some("/home/u")), "/home/u");
    assert_eq!(cd_target(&mut st, "cd ~", Some("/home/u")), "/home/u");
    assert_eq!(cd_target(&mut st, "cd", None), "/w");
    assert_eq!(cd_target(&mut st, "cd /tmp", None), "/tmp");
    assert_eq!(cd_target(&mut st, "cd  src ", None), "/w/src");
    assert_eq!(cd_target(&mut st, "cdrom", None), "/w/rom");
}

#[test]
fn cd_results_and_spawn_failures() {
    let mut st = fresh();
    st.finish_cd("/x", CdResult::Dir("/real/x".to_string()));
    st.finish_cd("/y", CdResult::NotDir);
    st.finish_cd("/z", CdResult::Failed("No such file".to_string()));
    st.spawn_failed("boom");
    assert_eq!(texts(&st), vec!["~ /real/x", "not a directory: /y", "cd: No such file", "failed to spawn: boom"]);
    assert_eq!(st.buf[0].kind, LineKind::Output);
    assert_eq!(st.buf[3].kind, LineKind::Error);
}

#[test]
fn tab_query_splits_the_last_word() {
    let mut st = fresh();
    typed(&mut st, "ls sr");
    assert!(st.tab_query_ok());
    let q = st.tab_query("/home/u");
    assert_eq!(q.prefix, "ls ");
    assert_eq!(q.dir_prefix, "");
    assert_eq!(q.scan_dir, "/home/u/proj");
    assert_eq!(q.partial, "sr");
    let mut st = fresh();
    typed(&mut st, "cat ~/doc/no");
    let q = st.tab_query("/home/u");
    assert_eq!(q.prefix, "cat ");
    assert_eq!(q.dir_prefix, "~/doc/");
    assert_eq!(q.scan_dir, "/home/u/doc");
    assert_eq!(q.partial, "no");
    let mut st = fresh();
    typed(&mut st, "vi /etc/ho");
    let q = st.tab_query("/home/u");
    assert_eq!(q.scan_dir, "/etc");
    let mut st = fresh();
    typed(&mut st, "vi a/b/c");
    let q = st.tab_query("/home/u");
    assert_eq!(q.scan_dir, "/home/u/proj/a/b");
    assert_eq!(q.dir_prefix, "a/b/");
    assert_eq!(q.partial, "c");
}

#[test]
fn tab_query_with_trailing_space_cuts_by_bytes() {
    let mut st = fresh();
    typed(&mut st, "ls foo ");
    let q = st.tab_query("/home/u");
    assert_eq!(q.prefix, "ls f");
    assert_eq!(q.partial, "foo");
    let mut st = fresh();
    typed(&mut st, "a é ");
    assert!(!st.tab_query_ok());
}

fn entry(n: &str, d: bool) -> DirEntryName {
    DirEntryName { name: n.to_string(), is_dir: d }
}

#[test]
fn completion_single_multiple_and_cycling() {
    let mut st = fresh();
    typed(&mut st, "cd Do");
    let q = st.tab_query("/home/u");
    let entries = vec![entry("Downloads", true), entry("docs", true), entry("x", false)];
    st.complete_tab(&q, &entries);
    // both match case-insensitively: listed, then completed to their common prefix
    assert_eq!(texts(&st).last().unwrap(), "Downloads/  docs/");
    assert_eq!(st.input, "cd ");
    assert_eq!(st.cursor_col, 3);
    assert_eq!(st.tab_candidates, vec!["Downloads/", "docs/"]);
    st.complete_tab(&q, &entries);
    assert_eq!(st.input, "cd docs/");
    assert_eq!(st.tab_index, 1);
    st.complete_tab(&q, &entries);
    assert_eq!(st.input, "cd Downloads/");
    assert_eq!(st.tab_index, 0);
    let mut st = fresh();
    typed(&mut st, "cat RE");
    let q = st.tab_query("/home/u");
    st.complete_tab(&q, &vec![entry("readme.md", false), entry("src", true)]);
    assert_eq!(st.input, "cat readme.md");
    assert_eq!(st.cursor_col, 13);
    assert!(st.tab_candidates.is_empty());
    let before = st.input.clone();
    st.complete_tab(&q, &vec![entry("zzz", false)]);
    assert_eq!(st.input, before);
}

#[test]
fn apply_completion_lists_sorted_candidates() {
    let mut st = fresh();
    let q = TabQuery {
        prefix: "ls ".to_string(),
        dir_prefix: "d/".to_string(),
        scan_dir: "/x/d".to_string(),
        partial: "a".to_string(),
    };
    st.apply_completion(&q, vec!["ab".to_string(), "ac".to_string()]);
    assert_eq!(st.input, "ls d/a");
    assert_eq!(texts(&st), vec!["ab  ac"]);
    let cands = flowmango_terminal::complete::matching_candidates(
        &vec!["b".to_string(), "A".to_string(), "a2".to_string(), "c".to_string()],
        &vec!["b".to_string(), "a".to_string(), "a2".to_string(), "c".to_string()],
        "a",
    );
    assert_eq!(cands, vec!["A", "a2"]);
}

#[test]
fn lines_cache_their_spans() {
    let mut l = Line::output("\x1b[31mred".to_string());
    assert!(l.spans_cache.is_none());
    let sp = l.get_spans().to_vec();
    assert_eq!(sp[0].text, "red");
    assert!(l.spans_cache.is_some());
    let mut e = Line::error("\x1b[31mraw".to_string());
    assert_eq!(e.get_spans()[0].text, "\x1b[31mraw");
    assert_eq!(e.get_spans()[0].color, None);
    let mut p = Line::precolored(&[("a", Some(Rgba(1, 2, 3, 4))), ("", None)]);
    assert_eq!(p.text, "");
    assert_eq!(p.kind, LineKind::Output);
    let ps = p.get_spans();
    assert_eq!(ps.len(), 2);
    assert_eq!(ps[0].color, Some(Rgba(1, 2, 3, 4)));
    let mut echo = Line::echo("^C".to_string());
    assert_eq!(echo.kind, LineKind::Echo);
    assert_eq!(echo.get_spans()[0].text, "^C");
}

fn obj_key(st: &mut State, key: Key, ctrl: bool) -> KeyOutcome {
    st.obj_key_step(&key, ctrl)
}

#[test]
fn object_keys_edit_like_the_prompt() {
    let mut st = fresh();
    assert!(matches!(obj_key(&mut st, Key::Character("héllo".to_string()), false), KeyOutcome::Handled));
    assert_eq!(st.input, "héllo");
    assert_eq!(st.cursor_col, 5);
    obj_key(&mut st, Key::ArrowLeft, false);
    obj_key(&mut st, Key::Backspace, false);
    assert_eq!(st.input, "hélo");
    assert_eq!(st.cursor_col, 3);
    obj_key(&mut st, Key::Space, false);
    assert_eq!(st.input, "hél o");
    obj_key(&mut st, Key::Home, false);
    assert_eq!(st.cursor_col, 0);
    obj_key(&mut st, Key::End, false);
    assert_eq!(st.cursor_col, 5);
    obj_key(&mut st, Key::ArrowRight, false);
    assert_eq!(st.cursor_col, 5);
    // Control characters typed without Ctrl are dropped; Tab does nothing here.
    obj_key(&mut st, Key::Character("\u{3}x".to_string()), false);
    assert_eq!(st.input, "hél ox");
    assert!(matches!(obj_key(&mut st, Key::Tab, false), KeyOutcome::Handled));
    assert_eq!(st.input, "hél ox");
}

#[test]
fn object_ctrl_combos_use_the_lowercase_key() {
    let mut st = fresh();
    obj_key(&mut st, Key::Character("abcd".to_string()), false);
    obj_key(&mut st, Key::ArrowLeft, false);
    obj_key(&mut st, Key::ArrowLeft, false);
    assert!(matches!(obj_key(&mut st, Key::Character("K".to_string()), true), KeyOutcome::Handled));
    assert_eq!(st.input, "ab");
    obj_key(&mut st, Key::Character("A".to_string()), true);
    assert_eq!(st.cursor_col, 0);
    obj_key(&mut st, Key::Character("e".to_string()), true);
    assert_eq!(st.cursor_col, 2);
    obj_key(&mut st, Key::ArrowLeft, false);
    obj_key(&mut st, Key::Character("u".to_string()), true);
    assert_eq!(st.input, "b");
    assert_eq!(st.cursor_col, 0);
    // Ctrl with any other key, or with a named key, does nothing.
    assert!(matches!(obj_key(&mut st, Key::Character("x".to_string()), true), KeyOutcome::Handled));
    assert!(matches!(obj_key(&mut st, Key::Enter, true), KeyOutcome::Handled));
    assert_eq!(st.input, "b");
    st.push(Line::output("old".to_string()));
    assert!(matches!(obj_key(&mut st, Key::Character("L".to_string()), true), KeyOutcome::Clear));
    assert!(st.buf.is_empty());
}

#[test]
fn object_ctrl_c_works_while_running_and_other_keys_wait() {
    let mut st = fresh();
    st.start_running();
    obj_key(&mut st, Key::Character("zz".to_string()), false);
    assert_eq!(st.input, "");
    assert!(matches!(obj_key(&mut st, Key::Character("C".to_string()), true), KeyOutcome::Kill));
    assert!(!st.running);
    assert_eq!(st.buf.last().unwrap().text, "^C");
    assert_eq!(st.buf.last().unwrap().kind, LineKind::Echo);
}

#[test]
fn object_enter_echoes_the_trimmed_command() {
    let mut st = fresh();
    obj_key(&mut st, Key::Character("  ls -l ".to_string()), false);
    match obj_key(&mut st, Key::Enter, false) {
        KeyOutcome::Run(c) => assert_eq!(c, "ls -l"),
        _ => panic!("expected a command to run"),
    }
    assert_eq!(st.buf.last().unwrap().text, "> ls -l");
    assert_eq!(st.buf.last().unwrap().kind, LineKind::Echo);
    assert_eq!(st.input, "");
    obj_key(&mut st, Key::Character("   ".to_string()), false);
    let before = st.buf.len();
    assert!(matches!(obj_key(&mut st, Key::Enter, false), KeyOutcome::ScrollToBottom));
    assert_eq!(st.buf.len(), before);
}

#[test]
fn object_history_keeps_completion_state() {
    let mut st = fresh();
    st.plan_command("one", "/", None);
    st.plan_command("two", "/", None);
    st.tab_candidates = vec!["a/".to_string(), "b/".to_string()];
    st.tab_index = 1;
    obj_key(&mut st, Key::ArrowUp, false);
    assert_eq!(st.input, "two");
    obj_key(&mut st, Key::ArrowUp, false);
    assert_eq!(st.input, "one");
    obj_key(&mut st, Key::ArrowDown, false);
    assert_eq!(st.input, "two");
    obj_key(&mut st, Key::ArrowDown, false);
    assert_eq!(st.input, "");
    assert_eq!(st.history_idx, None);
    assert_eq!(st.tab_candidates.len(), 2);
    assert_eq!(st.tab_index, 1);
}
