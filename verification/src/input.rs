//! Editing the prompt line with the keyboard: insertion and deletion, cursor
//! motion, history, control keys, and what the rest of the program must do next.
use vstd::prelude::*;
use crate::line::{Line, LineKind, LineModel, plain_line};
use crate::color::Rgba;
use crate::state::{State, TermModel, push_line};
use crate::text::{
    chars_of, string_of, string_of_range, vec_range, push_char, append_str, is_control, spec_is_control,
    trim, spec_trim,
};
use crate::view::{TerminalView, spec_display_cwd};
use crate::complete::{lowercase, spec_lowercase};

verus! {

/// A key press, as far as the terminal cares.
pub enum Key {
    /// Text typed with the keyboard (possibly a control character).
    Character(String),
    Tab,
    Enter,
    Backspace,
    Delete,
    ArrowLeft,
    ArrowRight,
    ArrowUp,
    ArrowDown,
    Home,
    End,
    Space,
    /// Any other key.
    Other,
}

/// A key press as values.
pub enum KeyModel {
    Character(Seq<char>),
    Tab,
    Enter,
    Backspace,
    Delete,
    ArrowLeft,
    ArrowRight,
    ArrowUp,
    ArrowDown,
    Home,
    End,
    Space,
    Other,
}

impl View for Key {
    type V = KeyModel;

    open spec fn view(&self) -> KeyModel {
        match self {
            Key::Character(s) => KeyModel::Character(s@),
            Key::Tab => KeyModel::Tab,
            Key::Enter => KeyModel::Enter,
            Key::Backspace => KeyModel::Backspace,
            Key::Delete => KeyModel::Delete,
            Key::ArrowLeft => KeyModel::ArrowLeft,
            Key::ArrowRight => KeyModel::ArrowRight,
            Key::ArrowUp => KeyModel::ArrowUp,
            Key::ArrowDown => KeyModel::ArrowDown,
            Key::Home => KeyModel::Home,
            Key::End => KeyModel::End,
            Key::Space => KeyModel::Space,
            Key::Other => KeyModel::Other,
        }
    }
}

/// What the caller must do after a key was handled.
pub enum KeyOutcome {
    /// Nothing more.
    Handled,
    /// Kill the running command's process and scroll to the bottom.
    Kill,
    /// The scrollback was cleared: reset the view's scrolling.
    Clear,
    /// List the directory for a completion and call `State::complete_tab`.
    Complete,
    /// Scroll to the bottom.
    ScrollToBottom,
    /// Scroll to the bottom, run this command, and scroll to the bottom again.
    Run(String),
}

/// What the caller must do after a key, as values.
pub enum OutcomeModel {
    Handled,
    Kill,
    Clear,
    Complete,
    ScrollToBottom,
    Run(Seq<char>),
}

impl View for KeyOutcome {
    type V = OutcomeModel;

    open spec fn view(&self) -> OutcomeModel {
        match self {
            KeyOutcome::Handled => OutcomeModel::Handled,
            KeyOutcome::Kill => OutcomeModel::Kill,
            KeyOutcome::Clear => OutcomeModel::Clear,
            KeyOutcome::Complete => OutcomeModel::Complete,
            KeyOutcome::ScrollToBottom => OutcomeModel::ScrollToBottom,
            KeyOutcome::Run(s) => OutcomeModel::Run(s@),
        }
    }
}

/// The prompt shown while no command runs.
pub open spec fn prompt_idle() -> Seq<char> {
    seq!['\u{276f}', ' ']
}

/// The prompt shown while a command runs.
pub open spec fn prompt_running() -> Seq<char> {
    seq!['\u{25cf}', ' ']
}

/// The color of the idle prompt.
pub open spec fn col_prompt_idle() -> Rgba {
    Rgba(200, 160, 255, 255)
}

/// The color of the prompt while a command runs.
pub open spec fn col_prompt_running() -> Rgba {
    Rgba(210, 120, 60, 255)
}

/// The color of echoed input.
pub open spec fn col_echo() -> Rgba {
    Rgba(100, 100, 100, 255)
}

/// The color of the working directory shown above the prompt.
pub open spec fn col_cwd() -> Rgba {
    Rgba(90, 90, 110, 255)
}

impl TermModel {
    /// The state with the input replaced and the cursor moved.
    pub open spec fn with_input(self, input: Seq<char>, cursor: nat) -> TermModel {
        TermModel { input, cursor_col: cursor, ..self }
    }

    /// The state with no completion candidates remembered.
    pub open spec fn tabs_cleared(self) -> TermModel {
        TermModel { tab_candidates: Seq::empty(), tab_index: 0, ..self }
    }

    /// The state with the cursor at `c`.
    pub open spec fn cursor_at(self, c: nat) -> TermModel {
        TermModel { cursor_col: c, ..self }
    }

    /// The state after Ctrl-C: the command is stopped, `^C` is echoed and the input emptied.
    pub open spec fn killed(self) -> TermModel {
        let s = self.stopped().pushed(plain_line(seq!['^', 'C'], LineKind::Echo));
        TermModel { input: Seq::empty(), cursor_col: 0, history_idx: None, ..s }
    }

    /// The state after the scrollback was cleared.
    pub open spec fn cleared(self) -> TermModel {
        TermModel { buf: Seq::empty(), slot_count: 0, dirty: true, ..self }
    }
}

/// `s` with `t` inserted before position `at`.
pub open spec fn insert_at(s: Seq<char>, at: int, t: Seq<char>) -> Seq<char> {
    s.take(at) + t + s.skip(at)
}

/// The state after a control character was typed.
pub open spec fn ctrl_step(s: TermModel, c: char) -> (TermModel, OutcomeModel) {
    if c == '\u{3}' {
        (s.killed(), OutcomeModel::Kill)
    } else if c == '\u{c}' {
        (s.cleared(), OutcomeModel::Clear)
    } else if c == '\u{1}' {
        (s.cursor_at(0), OutcomeModel::Handled)
    } else if c == '\u{5}' {
        (s.cursor_at(s.input.len()), OutcomeModel::Handled)
    } else if c == '\u{15}' {
        (s.with_input(s.input.skip(s.cursor_col as int), 0), OutcomeModel::Handled)
    } else if c == '\u{b}' {
        (s.with_input(s.input.take(s.cursor_col as int), s.cursor_col), OutcomeModel::Handled)
    } else {
        (s, OutcomeModel::Handled)
    }
}

/// The lines Enter echoes: the working directory, then the prompt and the input.
pub open spec fn echo_lines(s: TermModel, home: Seq<char>) -> (LineModel, LineModel) {
    (
        (Seq::empty(), LineKind::Output, Some(seq![(spec_display_cwd(s.cwd, home), Some(col_cwd()))])),
        (
            Seq::empty(),
            LineKind::Output,
            Some(seq![(prompt_idle(), Some(col_echo())), (s.input, Some(col_echo()))]),
        ),
    )
}

/// The state after Enter: the directory and the input are echoed, the input is
/// emptied, and the trimmed input is run unless it is blank.
pub open spec fn enter_step(s: TermModel, home: Seq<char>) -> (TermModel, OutcomeModel) {
    let cmd = spec_trim(s.input);
    let (l1, l2) = echo_lines(s, home);
    let s2 = s.pushed(l1).pushed(l2);
    let s3 = TermModel { input: Seq::empty(), cursor_col: 0, history_idx: None, ..s2 }.tabs_cleared();
    (s3, if cmd.len() == 0 { OutcomeModel::ScrollToBottom } else { OutcomeModel::Run(cmd) })
}

/// The state after ArrowUp: the previous history entry (the last one when not
/// browsing history) replaces the input.
pub open spec fn history_up(s: TermModel) -> TermModel {
    if s.history.len() == 0 {
        s
    } else {
        let idx: nat = match s.history_idx {
            Some(i) => if i > 0 { (i - 1) as nat } else { 0 },
            None => (s.history.len() - 1) as nat,
        };
        TermModel {
            history_idx: Some(idx),
            ..s.with_input(s.history[idx as int], s.history[idx as int].len())
        }.tabs_cleared()
    }
}

/// The state after ArrowDown: the next history entry replaces the input, and
/// going past the last entry leaves history with an empty input.
pub open spec fn history_down(s: TermModel) -> TermModel {
    match s.history_idx {
        None => s,
        Some(i) => if i + 1 >= s.history.len() {
            TermModel { history_idx: None, ..s.with_input(Seq::empty(), 0) }.tabs_cleared()
        } else {
            let idx: nat = i + 1;
            TermModel {
                history_idx: Some(idx),
                ..s.with_input(s.history[idx as int], s.history[idx as int].len())
            }.tabs_cleared()
        },
    }
}

/// The non-control characters of `t`, in order.
pub open spec fn printable(t: Seq<char>) -> Seq<char> {
    t.filter(|c: char| !spec_is_control(c))
}

/// The state after a key and what the caller must do next. While a command runs
/// only Ctrl-C does anything; otherwise typed text is inserted at the cursor
/// (a leading control character is a command instead), and each key edits the
/// input, moves the cursor or browses history as its name says.
pub open spec fn key_step(s: TermModel, k: KeyModel, home: Seq<char>) -> (TermModel, OutcomeModel) {
    if s.running {
        match k {
            KeyModel::Character(t) => if t.len() > 0 && t[0] == '\u{3}' {
                (s.killed(), OutcomeModel::Kill)
            } else {
                (s, OutcomeModel::Handled)
            },
            _ => (s, OutcomeModel::Handled),
        }
    } else {
        match k {
            KeyModel::Character(t) => {
                let first = if t.len() > 0 { t[0] } else { '\0' };
                if spec_is_control(first) {
                    ctrl_step(s, first)
                } else if printable(t).len() == 0 {
                    (s, OutcomeModel::Handled)
                } else {
                    let cs = printable(t);
                    (
                        TermModel {
                            history_idx: None,
                            ..s.with_input(
                                insert_at(s.input, s.cursor_col as int, cs),
                                s.cursor_col + cs.len(),
                            )
                        }.tabs_cleared(),
                        OutcomeModel::Handled,
                    )
                }
            },
            KeyModel::Tab => (s, OutcomeModel::Complete),
            KeyModel::Enter => enter_step(s, home),
            KeyModel::Backspace | KeyModel::Delete => if s.cursor_col > 0 {
                (
                    s.with_input(
                        s.input.remove(s.cursor_col - 1),
                        (s.cursor_col - 1) as nat,
                    ).tabs_cleared(),
                    OutcomeModel::Handled,
                )
            } else {
                (s, OutcomeModel::Handled)
            },
            KeyModel::ArrowLeft => if s.cursor_col > 0 {
                (s.cursor_at((s.cursor_col - 1) as nat), OutcomeModel::Handled)
            } else {
                (s, OutcomeModel::Handled)
            },
            KeyModel::ArrowRight => if s.cursor_col < s.input.len() {
                (s.cursor_at(s.cursor_col + 1), OutcomeModel::Handled)
            } else {
                (s, OutcomeModel::Handled)
            },
            KeyModel::ArrowUp => (history_up(s), OutcomeModel::Handled),
            KeyModel::ArrowDown => (history_down(s), OutcomeModel::Handled),
            KeyModel::Home => (s.cursor_at(0), OutcomeModel::Handled),
            KeyModel::End => (s.cursor_at(s.input.len()), OutcomeModel::Handled),
            KeyModel::Space => (
                s.with_input(insert_at(s.input, s.cursor_col as int, seq![' ']), s.cursor_col + 1).tabs_cleared(),
                OutcomeModel::Handled,
            ),
            KeyModel::Other => (s, OutcomeModel::Handled),
        }
    }
}

} // verus!

verus! {

/// The idle prompt.
pub fn prompt_idle_str() -> (s: &'static str)
    ensures
        s@ == prompt_idle(),
{
    proof {
        reveal_strlit("\u{276f} ");
    }
    "\u{276f} "
}

/// The prompt while a command runs.
pub fn prompt_running_str() -> (s: &'static str)
    ensures
        s@ == prompt_running(),
{
    proof {
        reveal_strlit("\u{25cf} ");
    }
    "\u{25cf} "
}

/// The non-control characters of `v`, in order.
fn printable_chars(v: &Vec<char>) -> (r: Vec<char>)
    ensures
        r@ == printable(v@),
{
    let mut r: Vec<char> = Vec::new();
    let mut i: usize = 0;
    while i < v.len()
        invariant
            i <= v.len(),
            r@ == printable(v@.take(i as int)),
        decreases v.len() - i,
    {
        proof {
            assert(v@.take(i + 1) =~= v@.take(i as int).push(v@[i as int]));
            v@.take(i as int).lemma_filter_push(v@[i as int], |c: char| !spec_is_control(c));
        }
        if !is_control(v[i]) {
            r.push(v[i]);
        }
        i += 1;
    }
    assert(v@.take(v@.len() as int) =~= v@);
    r
}

/// The characters `v[..at] + ins + v[at..]`.
fn spliced(v: &Vec<char>, at: usize, ins: &Vec<char>) -> (r: Vec<char>)
    requires
        at <= v.len(),
    ensures
        r@ == insert_at(v@, at as int, ins@),
{
    let mut r = vec_range(v, 0, at);
    let mut i: usize = 0;
    while i < ins.len()
        invariant
            at <= v.len(),
            i <= ins.len(),
            r@ == v@.take(at as int) + ins@.take(i as int),
        decreases ins.len() - i,
    {
        r.push(ins[i]);
        i += 1;
        assert(r@ =~= v@.take(at as int) + ins@.take(i as int));
    }
    let mut j: usize = at;
    while j < v.len()
        invariant
            at <= j <= v.len(),
            r@ == v@.take(at as int) + ins@ + v@.subrange(at as int, j as int),
        decreases v.len() - j,
    {
        r.push(v[j]);
        j += 1;
        assert(r@ =~= v@.take(at as int) + ins@ + v@.subrange(at as int, j as int));
    }
    assert(v@.subrange(at as int, v.len() as int) =~= v@.skip(at as int));
    assert(ins@.take(ins.len() as int) =~= ins@);
    assert(r@ =~= v@.take(at as int) + ins@ + v@.skip(at as int));
    r
}

impl State {
    fn clear_tabs(&mut self)
        requires
            old(self).wf(),
        ensures
            final(self).wf(),
            final(self)@ == old(self)@.tabs_cleared(),
    {
        self.tab_candidates = Vec::new();
        self.tab_index = 0;
        assert(self@.tab_candidates =~= Seq::<Seq<char>>::empty());
    }

    /// Ctrl-C: marks the command stopped, echoes `^C` and empties the input.
    pub fn kill(&mut self)
        requires
            old(self).wf(),
        ensures
            final(self).wf(),
            final(self)@ == old(self)@.killed(),
    {
        self.kill_child();
        let mut t = String::new();
        push_char(&mut t, '^');
        push_char(&mut t, 'C');
        assert(t@ =~= seq!['^', 'C']);
        self.push(Line::echo(t));
        self.input = String::new();
        self.cursor_col = 0;
        self.history_idx = None;
    }

    /// A control character typed at the prompt: Ctrl-C kills, Ctrl-L clears,
    /// Ctrl-A and Ctrl-E move to the start and end, Ctrl-U deletes before the
    /// cursor and Ctrl-K after it.
    pub fn handle_ctrl(&mut self, ch: char) -> (out: KeyOutcome)
        requires
            old(self).wf(),
        ensures
            final(self).wf(),
            (final(self)@, out@) == ctrl_step(old(self)@, ch),
    {
        if ch == '\u{3}' {
            self.kill();
            KeyOutcome::Kill
        } else if ch == '\u{c}' {
            self.clear();
            KeyOutcome::Clear
        } else if ch == '\u{1}' {
            self.cursor_col = 0;
            assert(self@.history == old(self)@.history);
            assert(self.wf());
            KeyOutcome::Handled
        } else if ch == '\u{5}' {
            let v = chars_of(self.input.as_str());
            self.cursor_col = v.len();
            assert(self@.history == old(self)@.history);
            assert(self.wf());
            KeyOutcome::Handled
        } else if ch == '\u{15}' {
            let v = chars_of(self.input.as_str());
            self.input = string_of_range(&v, self.cursor_col, v.len());
            self.cursor_col = 0;
            assert(v@.subrange(old(self).cursor_col as int, v@.len() as int) =~= v@.skip(
                old(self).cursor_col as int,
            ));
            assert(self@.history == old(self)@.history);
            assert(self@.buf == old(self)@.buf);
            assert(self.wf());
            KeyOutcome::Handled
        } else if ch == '\u{b}' {
            let v = chars_of(self.input.as_str());
            self.input = string_of_range(&v, 0, self.cursor_col);
            assert(v@.subrange(0, old(self).cursor_col as int) =~= v@.take(
                old(self).cursor_col as int,
            ));
            assert(self@.history == old(self)@.history);
            assert(self@.buf == old(self)@.buf);
            assert(self.wf());
            KeyOutcome::Handled
        } else {
            KeyOutcome::Handled
        }
    }

    /// Enter: echoes the working directory and the input, empties the input, and
    /// asks for the trimmed input to be run unless it is blank.
    pub fn submit(&mut self, home: &str) -> (out: KeyOutcome)
        requires
            old(self).wf(),
        ensures
            final(self).wf(),
            (final(self)@, out@) == enter_step(old(self)@, home@),
    {
        let cmd = trim(self.input.as_str());
        let cwd_display = TerminalView::display_cwd(self.cwd.as_str(), home);
        let c_cwd = Rgba(90, 90, 110, 255);
        let c_echo = Rgba(100, 100, 100, 255);
        let seg1 = [(cwd_display.as_str(), Some(c_cwd))];
        let l1 = Line::precolored(&seg1);
        assert(seg1@.map_values(|s: (&str, Option<Rgba>)| (s.0@, s.1)) =~= seq![
            (cwd_display@, Some(c_cwd)),
        ]);
        let ghost s0 = self@;
        self.push(l1);
        let input = self.input.clone();
        let seg2 = [(prompt_idle_str(), Some(c_echo)), (input.as_str(), Some(c_echo))];
        let l2 = Line::precolored(&seg2);
        assert(seg2@.map_values(|s: (&str, Option<Rgba>)| (s.0@, s.1)) =~= seq![
            (prompt_idle(), Some(c_echo)),
            (s0.input, Some(c_echo)),
        ]);
        self.push(l2);
        self.input = String::new();
        self.cursor_col = 0;
        self.history_idx = None;
        self.clear_tabs();
        if cmd.as_str().is_empty() {
            KeyOutcome::ScrollToBottom
        } else {
            KeyOutcome::Run(cmd)
        }
    }

    /// Handles a key press at the prompt and says what the caller must do next.
    pub fn handle_key(&mut self, key: &Key, home: &str) -> (out: KeyOutcome)
        requires
            old(self).wf(),
        ensures
            final(self).wf(),
            (final(self)@, out@) == key_step(old(self)@, key@, home@),
    {
        if self.running {
            if let Key::Character(t) = key {
                let tv = chars_of(t.as_str());
                if tv.len() > 0 && tv[0] == '\u{3}' {
                    self.kill();
                    return KeyOutcome::Kill;
                }
            }
            return KeyOutcome::Handled;
        }
        match key {
            Key::Character(t) => {
                let tv = chars_of(t.as_str());
                let first = if tv.len() > 0 { tv[0] } else { '\0' };
                if is_control(first) {
                    return self.handle_ctrl(first);
                }
                let cs = printable_chars(&tv);
                if cs.len() == 0 {
                    return KeyOutcome::Handled;
                }
                let v = chars_of(self.input.as_str());
                let col = self.cursor_col;
                self.history_idx = None;
                self.clear_tabs();
                let nv = spliced(&v, col, &cs);
                let n = nv.len();
                assert(n == v.len() + cs.len());
                self.input = string_of(&nv);
                self.cursor_col = col + cs.len();
                KeyOutcome::Handled
            },
            Key::Tab => KeyOutcome::Complete,
            Key::Enter => self.submit(home),
            Key::Backspace | Key::Delete => {
                if self.cursor_col > 0 {
                    let v = chars_of(self.input.as_str());
                    let col = self.cursor_col;
                    self.clear_tabs();
                    let mut s = string_of_range(&v, 0, col - 1);
                    let tail = string_of_range(&v, col, v.len());
                    append_str(&mut s, tail.as_str());
                    self.input = s;
                    self.cursor_col = col - 1;
                }
                KeyOutcome::Handled
            },
            Key::ArrowLeft => {
                if self.cursor_col > 0 {
                    self.cursor_col = self.cursor_col - 1;
                }
                KeyOutcome::Handled
            },
            Key::ArrowRight => {
                let v = chars_of(self.input.as_str());
                if self.cursor_col < v.len() {
                    self.cursor_col = self.cursor_col + 1;
                }
                KeyOutcome::Handled
            },
            Key::ArrowUp => {
                self.history_prev();
                KeyOutcome::Handled
            },
            Key::ArrowDown => {
                self.history_next();
                KeyOutcome::Handled
            },
            Key::Home => {
                self.cursor_col = 0;
                KeyOutcome::Handled
            },
            Key::End => {
                let v = chars_of(self.input.as_str());
                self.cursor_col = v.len();
                KeyOutcome::Handled
            },
            Key::Space => {
                let v = chars_of(self.input.as_str());
                let col = self.cursor_col;
                let mut sp: Vec<char> = Vec::new();
                sp.push(' ');
                assert(sp@ =~= seq![' ']);
                self.clear_tabs();
                let nv = spliced(&v, col, &sp);
                let n = nv.len();
                assert(n == v.len() + 1);
                self.input = string_of(&nv);
                self.cursor_col = col + 1;
                KeyOutcome::Handled
            },
            Key::Other => KeyOutcome::Handled,
        }
    }

    /// ArrowUp: the previous history entry replaces the input.
    pub fn history_prev(&mut self)
        requires
            old(self).wf(),
        ensures
            final(self).wf(),
            final(self)@ == history_up(old(self)@),
    {
        if self.history.len() == 0 {
            return;
        }
        let idx = match self.history_idx {
            Some(i) => if i > 0 { i - 1 } else { 0 },
            None => self.history.len() - 1,
        };
        let entry = self.history[idx].clone();
        let v = chars_of(entry.as_str());
        self.history_idx = Some(idx);
        self.input = entry;
        self.cursor_col = v.len();
        self.clear_tabs();
    }

    /// ArrowDown: the next history entry replaces the input, or past the last
    /// one the input is emptied and history browsing ends.
    pub fn history_next(&mut self)
        requires
            old(self).wf(),
        ensures
            final(self).wf(),
            final(self)@ == history_down(old(self)@),
    {
        match self.history_idx {
            None => {},
            Some(i) => {
                let n = self.history.len();
                assert(i < n);
                if n - i <= 1 {
                    self.history_idx = None;
                    self.input = String::new();
                    self.cursor_col = 0;
                    self.clear_tabs();
                } else {
                    let idx = i + 1;
                    let entry = self.history[idx].clone();
                    let v = chars_of(entry.as_str());
                    self.history_idx = Some(idx);
                    self.input = entry;
                    self.cursor_col = v.len();
                    self.clear_tabs();
                }
            },
        }
    }
}

} // verus!

verus! {

/// The control character that Ctrl with the key whose lowercase text is `lowered`
/// stands for: Ctrl+C, L, A, E, U and K; NUL for any other key.
pub open spec fn ctrl_letter(lowered: Seq<char>) -> char {
    if lowered == seq!['c'] {
        '\u{3}'
    } else if lowered == seq!['l'] {
        '\u{c}'
    } else if lowered == seq!['a'] {
        '\u{1}'
    } else if lowered == seq!['e'] {
        '\u{5}'
    } else if lowered == seq!['u'] {
        '\u{15}'
    } else if lowered == seq!['k'] {
        '\u{b}'
    } else {
        '\0'
    }
}

/// Enter on the terminal object: a non-blank input is echoed as `> <command>` and
/// run, and the input is emptied.
pub open spec fn obj_enter_step(s: TermModel) -> (TermModel, OutcomeModel) {
    let cmd = spec_trim(s.input);
    let s1 = if cmd.len() == 0 {
        s
    } else {
        s.pushed(plain_line(seq!['>', ' '] + cmd, LineKind::Echo))
    };
    (
        TermModel { input: Seq::empty(), cursor_col: 0, history_idx: None, ..s1 },
        if cmd.len() == 0 { OutcomeModel::ScrollToBottom } else { OutcomeModel::Run(cmd) },
    )
}

/// The state with the completion fields of `s` put back.
pub open spec fn keep_tabs(t: TermModel, s: TermModel) -> TermModel {
    TermModel { tab_candidates: s.tab_candidates, tab_index: s.tab_index, ..t }
}

/// A key on the terminal object, where Ctrl is a held modifier: with Ctrl held,
/// the key's lowercase text selects a control command (at any time); otherwise,
/// while no command runs, keys edit the input, move the cursor and browse history
/// as at the prompt, without completion (Tab does nothing and the completion
/// state is left as it is), and Enter echoes `> <command>`.
pub open spec fn obj_key_model(s: TermModel, k: KeyModel, ctrl: bool) -> (TermModel, OutcomeModel) {
    if ctrl {
        match k {
            KeyModel::Character(t) => ctrl_step(s, ctrl_letter(spec_lowercase(t))),
            _ => (s, OutcomeModel::Handled),
        }
    } else if s.running {
        (s, OutcomeModel::Handled)
    } else {
        match k {
            KeyModel::Character(t) => {
                let cs = printable(t);
                (
                    TermModel {
                        history_idx: None,
                        ..s.with_input(
                            insert_at(s.input, s.cursor_col as int, cs),
                            s.cursor_col + cs.len(),
                        )
                    },
                    OutcomeModel::Handled,
                )
            },
            KeyModel::Enter => obj_enter_step(s),
            KeyModel::Backspace | KeyModel::Delete => if s.cursor_col > 0 {
                (
                    s.with_input(s.input.remove(s.cursor_col - 1), (s.cursor_col - 1) as nat),
                    OutcomeModel::Handled,
                )
            } else {
                (s, OutcomeModel::Handled)
            },
            KeyModel::ArrowUp => (keep_tabs(history_up(s), s), OutcomeModel::Handled),
            KeyModel::ArrowDown => (keep_tabs(history_down(s), s), OutcomeModel::Handled),
            KeyModel::Space => (
                s.with_input(insert_at(s.input, s.cursor_col as int, seq![' ']), s.cursor_col + 1),
                OutcomeModel::Handled,
            ),
            KeyModel::ArrowLeft => if s.cursor_col > 0 {
                (s.cursor_at((s.cursor_col - 1) as nat), OutcomeModel::Handled)
            } else {
                (s, OutcomeModel::Handled)
            },
            KeyModel::ArrowRight => if s.cursor_col < s.input.len() {
                (s.cursor_at(s.cursor_col + 1), OutcomeModel::Handled)
            } else {
                (s, OutcomeModel::Handled)
            },
            KeyModel::Home => (s.cursor_at(0), OutcomeModel::Handled),
            KeyModel::End => (s.cursor_at(s.input.len()), OutcomeModel::Handled),
            KeyModel::Tab | KeyModel::Other => (s, OutcomeModel::Handled),
        }
    }
}

/// The control character for a Ctrl+key whose lowercase text is `lowered`.
fn ctrl_letter_of(lowered: &str) -> (c: char)
    ensures
        c == ctrl_letter(lowered@),
{
    let v = chars_of(lowered);
    if v.len() != 1 {
        assert(lowered@.len() != 1);
        return '\0';
    }
    assert(v@ =~= seq![v@[0]]);
    let c = v[0];
    if c == 'c' {
        '\u{3}'
    } else if c == 'l' {
        '\u{c}'
    } else if c == 'a' {
        '\u{1}'
    } else if c == 'e' {
        '\u{5}'
    } else if c == 'u' {
        '\u{15}'
    } else if c == 'k' {
        '\u{b}'
    } else {
        '\0'
    }
}

impl State {
    /// Ctrl held with a key whose lowercase text is `lowered` (see `ctrl_letter`).
    pub fn obj_ctrl_key(&mut self, lowered: &str) -> (out: KeyOutcome)
        requires
            old(self).wf(),
        ensures
            final(self).wf(),
            (final(self)@, out@) == ctrl_step(old(self)@, ctrl_letter(lowered@)),
    {
        let c = ctrl_letter_of(lowered);
        self.handle_ctrl(c)
    }

    /// Handles a key on the terminal object, `ctrl` telling whether Ctrl is held,
    /// and says what the caller must do next (see `obj_key_model`).
    pub fn obj_key_step(&mut self, key: &Key, ctrl: bool) -> (out: KeyOutcome)
        requires
            old(self).wf(),
        ensures
            final(self).wf(),
            (final(self)@, out@) == obj_key_model(old(self)@, key@, ctrl),
    {
        if ctrl {
            if let Key::Character(t) = key {
                let low = lowercase(t.as_str());
                return self.obj_ctrl_key(low.as_str());
            }
            return KeyOutcome::Handled;
        }
        if self.running {
            return KeyOutcome::Handled;
        }
        match key {
            Key::Character(t) => {
                let tv = chars_of(t.as_str());
                let cs = printable_chars(&tv);
                let v = chars_of(self.input.as_str());
                let col = self.cursor_col;
                let nv = spliced(&v, col, &cs);
                let n = nv.len();
                assert(n == v.len() + cs.len());
                self.history_idx = None;
                self.input = string_of(&nv);
                self.cursor_col = col + cs.len();
                KeyOutcome::Handled
            },
            Key::Enter => {
                let cmd = trim(self.input.as_str());
                if !cmd.as_str().is_empty() {
                    let mut t = String::new();
                    push_char(&mut t, '>');
                    push_char(&mut t, ' ');
                    append_str(&mut t, cmd.as_str());
                    assert(t@ =~= seq!['>', ' '] + cmd@);
                    self.push(Line::echo(t));
                }
                self.input = String::new();
                self.cursor_col = 0;
                self.history_idx = None;
                if cmd.as_str().is_empty() {
                    KeyOutcome::ScrollToBottom
                } else {
                    KeyOutcome::Run(cmd)
                }
            },
            Key::Backspace | Key::Delete => {
                if self.cursor_col > 0 {
                    let v = chars_of(self.input.as_str());
                    let col = self.cursor_col;
                    let mut s = string_of_range(&v, 0, col - 1);
                    let tail = string_of_range(&v, col, v.len());
                    append_str(&mut s, tail.as_str());
                    self.input = s;
                    self.cursor_col = col - 1;
                }
                KeyOutcome::Handled
            },
            Key::ArrowUp => {
                if self.history.len() == 0 {
                    return KeyOutcome::Handled;
                }
                let idx = match self.history_idx {
                    Some(i) => if i > 0 { i - 1 } else { 0 },
                    None => self.history.len() - 1,
                };
                let entry = self.history[idx].clone();
                let v = chars_of(entry.as_str());
                self.history_idx = Some(idx);
                self.input = entry;
                self.cursor_col = v.len();
                KeyOutcome::Handled
            },
            Key::ArrowDown => {
                match self.history_idx {
                    None => {},
                    Some(i) => {
                        let n = self.history.len();
                        if n - i <= 1 {
                            self.history_idx = None;
                            self.input = String::new();
                            self.cursor_col = 0;
                        } else {
                            let idx = i + 1;
                            let entry = self.history[idx].clone();
                            let v = chars_of(entry.as_str());
                            self.history_idx = Some(idx);
                            self.input = entry;
                            self.cursor_col = v.len();
                        }
                    },
                }
                KeyOutcome::Handled
            },
            Key::Space => {
                let v = chars_of(self.input.as_str());
                let col = self.cursor_col;
                let mut sp: Vec<char> = Vec::new();
                sp.push(' ');
                assert(sp@ =~= seq![' ']);
                let nv = spliced(&v, col, &sp);
                let n = nv.len();
                assert(n == v.len() + 1);
                self.input = string_of(&nv);
                self.cursor_col = col + 1;
                KeyOutcome::Handled
            },
            Key::ArrowLeft => {
                if self.cursor_col > 0 {
                    self.cursor_col = self.cursor_col - 1;
                }
                KeyOutcome::Handled
            },
            Key::ArrowRight => {
                let v = chars_of(self.input.as_str());
                if self.cursor_col < v.len() {
                    self.cursor_col = self.cursor_col + 1;
                }
                KeyOutcome::Handled
            },
            Key::Home => {
                self.cursor_col = 0;
                KeyOutcome::Handled
            },
            Key::End => {
                let v = chars_of(self.input.as_str());
                self.cursor_col = v.len();
                KeyOutcome::Handled
            },
            Key::Tab | Key::Other => KeyOutcome::Handled,
        }
    }
}

} // verus!
