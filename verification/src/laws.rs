//! Properties that hold across the terminal's operations.
use vstd::prelude::*;
use crate::command::{plan_step, PlanModel};
use crate::complete::{complete_step, matching, spec_lowercase};
use crate::complete::TabQueryModel;
use crate::input::{key_step, obj_key_model, KeyModel, OutcomeModel, history_up, printable, insert_at};
use crate::line::{Line, LineKind, LineModel, default_spans};
use crate::ansi::{strip_from, spec_parse_ansi, spec_strip_ansi, texts, lemma_parse_ansi_shows_stripped_text, is_plain, csi_end, csi_at, scan, flush, sgr_from};
use crate::state::{push_line, TermModel, StreamMsgModel, apply_msg, apply_msgs};
use crate::text::{spec_is_control, spec_trim, signed_decimal, decimal, digit_char};
use crate::ansi::{is_ascii_digit, is_ascii_alpha, digits_value, param_value, unsigned_digits, next_semi, lemma_next_semi, params_from, params_of};
use crate::view::spec_display_cwd;

verus! {

/// The scrollback never holds more than `scrollback` lines, and a pushed line is
/// the newest one: the scrollback is the old lines and the new one, less the
/// oldest when there would be too many.
pub proof fn lemma_push_keeps_newest(buf: Seq<LineModel>, l: LineModel, scrollback: nat)
    requires
        buf.len() <= scrollback,
    ensures
        push_line(buf, l, scrollback).len() <= scrollback,
        scrollback > 0 ==> push_line(buf, l, scrollback).last() == l,
        scrollback > 0 ==> push_line(buf, l, scrollback) == (if buf.len() < scrollback {
            buf.push(l)
        } else {
            buf.drop_first().push(l)
        }),
{
    if scrollback > 0 && buf.len() == scrollback {
        assert(buf.push(l).drop_first() =~= buf.drop_first().push(l));
    }
}

/// Typing a character and then deleting it with Backspace gives back the input
/// and the cursor position.
pub proof fn lemma_type_then_backspace(s: TermModel, c: char, home: Seq<char>)
    requires
        s.wf(),
        !s.running,
        !spec_is_control(c),
    ensures
        ({
            let s1 = key_step(s, KeyModel::Character(seq![c]), home).0;
            let s2 = key_step(s1, KeyModel::Backspace, home).0;
            s2.input == s.input && s2.cursor_col == s.cursor_col
        }),
{
    let t = seq![c];
    reveal(Seq::filter);
    assert(t.drop_last() =~= Seq::<char>::empty());
    assert(printable(t) =~= t);
    let s1 = key_step(s, KeyModel::Character(t), home).0;
    let col = s.cursor_col as int;
    assert(s1.input == insert_at(s.input, col, t));
    assert(s1.cursor_col == col + 1);
    let s2 = key_step(s1, KeyModel::Backspace, home).0;
    assert(s2.input =~= s.input);
}

/// Moving left and then right gives back the cursor position, unless the cursor
/// was already at the start.
pub proof fn lemma_left_then_right(s: TermModel, home: Seq<char>)
    requires
        s.wf(),
        !s.running,
        s.cursor_col > 0,
    ensures
        key_step(key_step(s, KeyModel::ArrowLeft, home).0, KeyModel::ArrowRight, home).0 == s,
{
}

/// Home then End puts the cursor after the last character, and End then Home at the start.
pub proof fn lemma_home_end(s: TermModel, home: Seq<char>)
    requires
        s.wf(),
        !s.running,
    ensures
        key_step(key_step(s, KeyModel::Home, home).0, KeyModel::End, home).0.cursor_col
            == s.input.len(),
        key_step(key_step(s, KeyModel::End, home).0, KeyModel::Home, home).0.cursor_col == 0,
{
}

/// Keys never change the history, the working directory, or the scrollback size limit.
pub proof fn lemma_keys_keep_history(s: TermModel, k: KeyModel, home: Seq<char>)
    ensures
        key_step(s, k, home).0.history == s.history,
        key_step(s, k, home).0.cwd == s.cwd,
        key_step(s, k, home).0.scrollback == s.scrollback,
{
}

/// While a command runs, every key but Ctrl-C is ignored.
pub proof fn lemma_running_ignores_keys(s: TermModel, k: KeyModel, home: Seq<char>)
    requires
        s.running,
        !(k matches KeyModel::Character(t) && t.len() > 0 && t[0] == '\u{3}'),
    ensures
        key_step(s, k, home) == (s, OutcomeModel::Handled),
{
}

/// A submitted command is remembered: ArrowUp right after brings it back into
/// the input, with the cursor after it.
pub proof fn lemma_submitted_command_recalled(
    s: TermModel,
    raw: Seq<char>,
    cwd: Seq<char>,
    h: Option<Seq<char>>,
    home: Seq<char>,
)
    requires
        s.wf(),
        !s.running,
        spec_trim(raw).len() > 0,
    ensures
        ({
            let s1 = plan_step(s, raw, cwd, h).0;
            let s2 = key_step(s1, KeyModel::ArrowUp, home).0;
            s2.input == spec_trim(raw) && s2.cursor_col == spec_trim(raw).len()
        }),
{
    let cmd = spec_trim(raw);
    let s1 = plan_step(s, raw, cwd, h).0;
    assert(s1.history.len() > 0 && s1.history.last() == cmd);
    assert(s1.history_idx is None);
    assert(!s1.running);
    let s2 = history_up(s1);
    assert(s2.input == s1.history[s1.history.len() - 1]);
}

/// Completing again with the same candidates after a listing offers them in turn:
/// the first completion lists them and the next one picks the second.
pub proof fn lemma_completion_cycles(s: TermModel, q: TabQueryModel, cands: Seq<Seq<char>>)
    requires
        cands.len() > 1,
        s.tab_candidates != cands,
    ensures
        ({
            let s1 = complete_step(s, q, cands);
            let s2 = complete_step(s1, q, cands);
            &&& s1.tab_candidates == cands
            &&& s1.tab_index == 0
            &&& s2.tab_index == 1
            &&& s2.input == q.prefix + q.dir_prefix + cands[1]
        }),
{
    let s1 = complete_step(s, q, cands);
    assert(s1.tab_candidates == cands);
    vstd::arithmetic::div_mod::lemma_small_mod(1nat, cands.len());
    assert((0nat + 1) % cands.len() == 1);
}

/// A path under the home directory is shown with `~` in place of home.
pub proof fn lemma_display_cwd_home(home: Seq<char>, rest: Seq<char>)
    requires
        home.len() > 0,
    ensures
        spec_display_cwd(home + rest, home) == seq!['~'] + rest,
{
    assert(home.is_prefix_of(home + rest));
    assert((home + rest).skip(home.len() as int) =~= rest);
}

/// On the terminal object, while a command runs, keys without Ctrl are ignored.
pub proof fn lemma_object_running_ignores_plain_keys(s: TermModel, k: KeyModel)
    requires
        s.running,
    ensures
        obj_key_model(s, k, false) == (s, OutcomeModel::Handled),
{
}

} // verus!

verus! {

proof fn lemma_sgr_shift(
    a: Seq<u32>,
    rest: Seq<u32>,
    k: int,
    c: Option<crate::color::Rgba>,
)
    requires
        0 <= k,
    ensures
        crate::ansi::sgr_from(a + rest, a.len() + k, c) == crate::ansi::sgr_from(rest, k, c),
    decreases rest.len() - k,
{
    let ps = a + rest;
    let i = a.len() + k;
    if k < rest.len() {
        assert(ps[i] == rest[k]);
        if k + 1 < rest.len() {
            assert(ps[i + 1] == rest[k + 1]);
        }
        if k + 2 < rest.len() {
            assert(ps[i + 2] == rest[k + 2]);
        }
        if k + 3 < rest.len() {
            assert(ps[i + 3] == rest[k + 3]);
        }
        if k + 4 < rest.len() {
            assert(ps[i + 4] == rest[k + 4]);
        }
        lemma_sgr_shift(a, rest, k + 1, None);
        lemma_sgr_shift(a, rest, k + 1, c);
        if k + 2 < rest.len() {
            lemma_sgr_shift(a, rest, k + 3, Some(crate::color::spec_ansi256(rest[k + 2] as u8)));
        }
        if k + 4 < rest.len() {
            lemma_sgr_shift(
                a,
                rest,
                k + 5,
                Some(crate::color::Rgba(rest[k + 2] as u8, rest[k + 3] as u8, rest[k + 4] as u8, 255)),
            );
        }
        let n = rest[k];
        if 30 <= n && n <= 37 {
            lemma_sgr_shift(a, rest, k + 1, Some(crate::color::spec_ansi16((n - 30) as u8)));
        }
        if 90 <= n && n <= 97 {
            lemma_sgr_shift(a, rest, k + 1, Some(crate::color::spec_ansi16((n - 90 + 8) as u8)));
        }
    }
}

/// No SGR parameters leave the color as it is.
pub proof fn lemma_sgr_none(c: Option<crate::color::Rgba>)
    ensures
        crate::ansi::sgr_from(Seq::empty(), 0, c) == c,
{
}

/// `38;2;r;g;b` sets the direct color `(r, g, b)` (each taken modulo 256) and
/// consumes all five parameters: what follows applies to that color.
pub proof fn lemma_sgr_direct_color(
    r: u32,
    g: u32,
    b: u32,
    rest: Seq<u32>,
    c: Option<crate::color::Rgba>,
)
    ensures
        crate::ansi::sgr_from(seq![38u32, 2, r, g, b] + rest, 0, c) == crate::ansi::sgr_from(
            rest,
            0,
            Some(crate::color::Rgba(r as u8, g as u8, b as u8, 255)),
        ),
        crate::ansi::sgr_from(seq![38u32, 2, r, g, b], 0, c) == Some(
            crate::color::Rgba(r as u8, g as u8, b as u8, 255),
        ),
{
    let p = seq![38u32, 2, r, g, b];
    let ps = p + rest;
    assert(ps[0] == 38 && ps[1] == 2 && ps[2] == r && ps[3] == g && ps[4] == b);
    lemma_sgr_shift(p, rest, 0, Some(crate::color::Rgba(r as u8, g as u8, b as u8, 255)));
    assert(p + Seq::<u32>::empty() =~= p);
    lemma_sgr_shift(p, Seq::empty(), 0, Some(crate::color::Rgba(r as u8, g as u8, b as u8, 255)));
}

/// `38;5;n` sets color `n` of the 256-color palette (taken modulo 256) and
/// consumes all three parameters.
pub proof fn lemma_sgr_palette_color(n: u32, rest: Seq<u32>, c: Option<crate::color::Rgba>)
    ensures
        crate::ansi::sgr_from(seq![38u32, 5, n] + rest, 0, c) == crate::ansi::sgr_from(
            rest,
            0,
            Some(crate::color::spec_ansi256(n as u8)),
        ),
{
    let p = seq![38u32, 5, n];
    let ps = p + rest;
    assert(ps[0] == 38 && ps[1] == 5 && ps[2] == n);
    lemma_sgr_shift(p, rest, 0, Some(crate::color::spec_ansi256(n as u8)));
}

/// A single code followed by more: 0 and 39 reset the color, 30..=37 pick the
/// normal and 90..=97 the bright colors of the 16-color palette, and any other
/// code but 38 leaves the color unchanged; the code consumes one parameter.
pub proof fn lemma_sgr_single_code(n: u32, rest: Seq<u32>, c: Option<crate::color::Rgba>)
    requires
        n != 38,
    ensures
        crate::ansi::sgr_from(seq![n] + rest, 0, c) == crate::ansi::sgr_from(
            rest,
            0,
            if n == 0 || n == 39 {
                None
            } else if 30 <= n <= 37 {
                Some(crate::color::spec_ansi16((n - 30) as u8))
            } else if 90 <= n <= 97 {
                Some(crate::color::spec_ansi16((n - 82) as u8))
            } else {
                c
            },
        ),
{
    let p = seq![n];
    assert((p + rest)[0] == n);
    lemma_sgr_shift(p, rest, 0, None);
    lemma_sgr_shift(p, rest, 0, c);
    if 30 <= n && n <= 37 {
        lemma_sgr_shift(p, rest, 0, Some(crate::color::spec_ansi16((n - 30) as u8)));
    }
    if 90 <= n && n <= 97 {
        lemma_sgr_shift(p, rest, 0, Some(crate::color::spec_ansi16((n - 82) as u8)));
    }
}

} // verus!

verus! {

/// Editing keys at the prompt, while no command runs, said position by position
/// with `c` the cursor: Space and typed text go in at the cursor and the cursor
/// moves past them, Backspace and Delete take out the character before the
/// cursor, the arrows, Home and End move the cursor within the input only, and
/// Tab leaves the state to the completion.
pub proof fn lemma_prompt_editing(s: TermModel, home: Seq<char>, t: Seq<char>)
    requires
        s.wf(),
        !s.running,
    ensures
        ({
            let c = s.cursor_col as int;
            let sp = key_step(s, KeyModel::Space, home).0;
            &&& sp.input == s.input.take(c) + seq![' '] + s.input.skip(c)
            &&& sp.cursor_col == c + 1
            &&& sp.buf == s.buf && sp.history == s.history
        }),
        ({
            let sp = key_step(s, KeyModel::Space, home).0;
            let ty = key_step(s, KeyModel::Character(seq![' ']), home).0;
            sp.input == ty.input && sp.cursor_col == ty.cursor_col
        }),
        ({
            let sp = key_step(s, KeyModel::Space, home).0;
            let back = key_step(sp, KeyModel::Backspace, home).0;
            back.input == s.input && back.cursor_col == s.cursor_col
        }),
        t.len() > 0 && !spec_is_control(t[0]) ==> ({
            let c = s.cursor_col as int;
            let ty = key_step(s, KeyModel::Character(t), home).0;
            &&& ty.input == s.input.take(c) + printable(t) + s.input.skip(c)
            &&& ty.cursor_col == c + printable(t).len()
        }),
        ({
            let c = s.cursor_col as int;
            let bs = key_step(s, KeyModel::Backspace, home).0;
            let del = key_step(s, KeyModel::Delete, home).0;
            &&& c > 0 ==> bs.input == s.input.take(c - 1) + s.input.skip(c) && bs.cursor_col == c - 1
            &&& c == 0 ==> bs.input == s.input && bs.cursor_col == 0
            &&& del.input == bs.input && del.cursor_col == bs.cursor_col
        }),
        ({
            let c = s.cursor_col as int;
            let l = key_step(s, KeyModel::ArrowLeft, home).0;
            let r = key_step(s, KeyModel::ArrowRight, home).0;
            &&& l.input == s.input && l.cursor_col == (if c > 0 { c - 1 } else { 0 })
            &&& r.input == s.input && r.cursor_col == (if c < s.input.len() { c + 1 } else { c })
        }),
        key_step(s, KeyModel::Home, home).0.cursor_col == 0,
        key_step(s, KeyModel::End, home).0.cursor_col == s.input.len(),
        key_step(s, KeyModel::Home, home).0.input == s.input,
        key_step(s, KeyModel::End, home).0.input == s.input,
        key_step(s, KeyModel::Tab, home) == (s, OutcomeModel::Complete),
{
    let c = s.cursor_col as int;
    reveal(Seq::filter);
    let one = seq![' '];
    assert(one.drop_last() =~= Seq::<char>::empty());
    assert(printable(one) =~= one);
    let sp = key_step(s, KeyModel::Space, home).0;
    assert(sp.input =~= s.input.take(c) + seq![' '] + s.input.skip(c));
    let back = key_step(sp, KeyModel::Backspace, home).0;
    assert(back.input =~= s.input);
    if c > 0 {
        let bs = key_step(s, KeyModel::Backspace, home).0;
        assert(bs.input =~= s.input.take(c - 1) + s.input.skip(c));
    }
}

/// The control keys at the prompt: Ctrl-A and Ctrl-E move to the start and the
/// end, Ctrl-U keeps what follows the cursor and Ctrl-K what precedes it, and
/// Ctrl-C echoes `^C`, empties the input and ends the running command.
pub proof fn lemma_prompt_control_keys(s: TermModel, home: Seq<char>)
    requires
        s.wf(),
        !s.running,
    ensures
        ({
            let c = s.cursor_col as int;
            let ua = key_step(s, KeyModel::Character(seq!['\u{1}']), home).0;
            let ue = key_step(s, KeyModel::Character(seq!['\u{5}']), home).0;
            let uu = key_step(s, KeyModel::Character(seq!['\u{15}']), home).0;
            let uk = key_step(s, KeyModel::Character(seq!['\u{b}']), home).0;
            &&& ua.input == s.input && ua.cursor_col == 0
            &&& ue.input == s.input && ue.cursor_col == s.input.len()
            &&& uu.input == s.input.skip(c) && uu.cursor_col == 0
            &&& uk.input == s.input.take(c) && uk.cursor_col == c
        }),
        ({
            let (k, out) = key_step(s, KeyModel::Character(seq!['\u{3}']), home);
            &&& out == OutcomeModel::Kill
            &&& !k.running
            &&& k.input.len() == 0
            &&& s.scrollback > 0 ==> k.buf.last().0 == seq!['^', 'C']
        }),
{
}

/// While a command runs, Ctrl-C still stops it: the terminal is no longer running
/// and the caller is told to kill the process.
pub proof fn lemma_ctrl_c_stops_running(s: TermModel, home: Seq<char>)
    requires
        s.wf(),
        s.running,
    ensures
        !key_step(s, KeyModel::Character(seq!['\u{3}']), home).0.running,
        key_step(s, KeyModel::Character(seq!['\u{3}']), home).1 == OutcomeModel::Kill,
{
}

/// Enter empties the input and puts the cursor at the start; the command run is
/// the input with surrounding whitespace removed, and nothing runs when that is
/// empty; two lines are added, the second showing the input as typed.
pub proof fn lemma_prompt_enter(s: TermModel, home: Seq<char>)
    requires
        s.wf(),
        !s.running,
        s.scrollback >= 2,
    ensures
        ({
            let (e, out) = key_step(s, KeyModel::Enter, home);
            &&& e.input.len() == 0 && e.cursor_col == 0 && e.history_idx is None
            &&& spec_trim(s.input).len() > 0 ==> out == OutcomeModel::Run(spec_trim(s.input))
            &&& spec_trim(s.input).len() == 0 ==> out == OutcomeModel::ScrollToBottom
            &&& e.buf.last().2 matches Some(sp) && sp.len() == 2 && sp[1].0 == s.input
        }),
{
}

/// ArrowUp while not browsing history recalls the newest entry, and ArrowDown
/// right after leaves history with an empty input.
pub proof fn lemma_history_up_down(s: TermModel, home: Seq<char>)
    requires
        s.wf(),
        !s.running,
        s.history_idx is None,
        s.history.len() > 0,
    ensures
        ({
            let u = key_step(s, KeyModel::ArrowUp, home).0;
            let d = key_step(u, KeyModel::ArrowDown, home).0;
            &&& u.input == s.history.last()
            &&& u.cursor_col == s.history.last().len()
            &&& d.input.len() == 0 && d.cursor_col == 0 && d.history_idx is None
        }),
{
}

/// On the terminal object, Space and typed text also go in at the cursor, and
/// Backspace takes out the character before it.
pub proof fn lemma_object_editing(s: TermModel, t: Seq<char>)
    requires
        s.wf(),
        !s.running,
    ensures
        ({
            let c = s.cursor_col as int;
            let sp = obj_key_model(s, KeyModel::Space, false).0;
            let ty = obj_key_model(s, KeyModel::Character(t), false).0;
            let back = obj_key_model(sp, KeyModel::Backspace, false).0;
            &&& sp.input == s.input.take(c) + seq![' '] + s.input.skip(c)
            &&& sp.cursor_col == c + 1
            &&& ty.input == s.input.take(c) + printable(t) + s.input.skip(c)
            &&& ty.cursor_col == c + printable(t).len()
            &&& back.input == s.input && back.cursor_col == c
        }),
{
    let c = s.cursor_col as int;
    let sp = obj_key_model(s, KeyModel::Space, false).0;
    assert(sp.input =~= s.input.take(c) + seq![' '] + s.input.skip(c));
    let back = obj_key_model(sp, KeyModel::Backspace, false).0;
    assert(back.input =~= s.input);
}

} // verus!

verus! {

/// What one message of a running command does: any `Done`, whatever its exit
/// code, ends the command, and nothing else does; standard output and standard
/// error lines become the newest line, of kind output and stderr; a nonzero exit
/// code adds the error line `exit <code>`, while exit code 0 and an unknown code
/// add nothing; the input, the cursor and the history are untouched.
pub proof fn lemma_stream_message(s: TermModel, m: StreamMsgModel)
    requires
        s.wf(),
    ensures
        m is Done ==> !apply_msg(s, m).running,
        !(m is Done) ==> apply_msg(s, m).running == s.running,
        s.scrollback > 0 ==> (m matches StreamMsgModel::Stdout(l) ==> apply_msg(s, m).buf.last()
            == (l, LineKind::Output, None::<Seq<(Seq<char>, Option<crate::color::Rgba>)>>)),
        s.scrollback > 0 ==> (m matches StreamMsgModel::Stderr(l) ==> apply_msg(s, m).buf.last()
            == (l, LineKind::Stderr, None::<Seq<(Seq<char>, Option<crate::color::Rgba>)>>)),
        s.scrollback > 0 ==> (m matches StreamMsgModel::Done(Some(c)) ==> c != 0 ==> apply_msg(
            s,
            m,
        ).buf.last() == (seq!['e', 'x', 'i', 't', ' '] + signed_decimal(c as int), LineKind::Error, None::<
            Seq<(Seq<char>, Option<crate::color::Rgba>)>,
        >)),
        (m == StreamMsgModel::Done(None) || m == StreamMsgModel::Done(Some(0))) ==> apply_msg(
            s,
            m,
        ).buf == s.buf,
        apply_msg(s, m).input == s.input,
        apply_msg(s, m).cursor_col == s.cursor_col,
        apply_msg(s, m).history == s.history,
{
}

/// A batch of messages that ends with `Done` leaves the terminal not running.
pub proof fn lemma_stream_ending_with_done(s: TermModel, ms: Seq<StreamMsgModel>)
    requires
        ms.len() > 0,
        ms.last() is Done,
    ensures
        !apply_msgs(s, ms, ms.len() as int).running,
{
}

/// A batch of messages without `Done` leaves the running flag as it was.
pub proof fn lemma_stream_without_done(s: TermModel, ms: Seq<StreamMsgModel>, n: int)
    requires
        0 <= n <= ms.len(),
        forall|i: int| 0 <= i < n ==> !(#[trigger] ms[i] is Done),
    ensures
        apply_msgs(s, ms, n).running == s.running,
    decreases n,
{
    if n > 0 {
        lemma_stream_without_done(s, ms, n - 1);
        assert(!(ms[n - 1] is Done));
    }
}

/// The spans a line shows before any are cached: output and stderr lines are
/// parsed for ANSI colors alike, so the texts of their spans put together are the
/// text with its escape sequences stripped (a single space when nothing is left);
/// error and echo lines are one uncolored span holding the text as it is.
pub proof fn lemma_line_spans(l: Line)
    requires
        l.cached() is None,
    ensures
        (l.kind == LineKind::Output || l.kind == LineKind::Stderr) ==> l.spec_spans()
            == spec_parse_ansi(l.text@),
        (l.kind == LineKind::Output || l.kind == LineKind::Stderr) && spec_strip_ansi(l.text@).len()
            > 0 ==> texts(l.spec_spans()) == spec_strip_ansi(l.text@),
        (l.kind == LineKind::Error || l.kind == LineKind::Echo) ==> l.spec_spans() == seq![
            (l.text@, None::<crate::color::Rgba>),
        ],
{
    lemma_parse_ansi_shows_stripped_text(l.text@);
}

/// An output line and a stderr line with the same text show the same spans.
pub proof fn lemma_stderr_spans_like_output(t: Seq<char>)
    ensures
        default_spans(t, LineKind::Stderr) == default_spans(t, LineKind::Output),
        default_spans(t, LineKind::Stderr) == spec_parse_ansi(t),
{
}

} // verus!

verus! {

/// SGR parameters written out in decimal, separated by `;`.
pub open spec fn param_text(vs: Seq<u32>) -> Seq<char>
    decreases vs.len(),
{
    if vs.len() == 0 {
        Seq::empty()
    } else if vs.len() == 1 {
        decimal(vs[0] as nat)
    } else {
        decimal(vs[0] as nat) + seq![';'] + param_text(vs.drop_first())
    }
}

proof fn lemma_decimal_digits(n: nat)
    ensures
        decimal(n).len() > 0,
        forall|i: int| 0 <= i < decimal(n).len() ==> is_ascii_digit(#[trigger] decimal(n)[i]),
        digits_value(decimal(n)) == n,
    decreases n,
{
    let dc = digit_char(n % 10);
    assert(dc as u32 == n % 10 + 48);
    if n < 10 {
        let d = decimal(n);
        assert(n % 10 == n);
        assert(d.drop_last() =~= Seq::<char>::empty());
        assert(d.last() == digit_char(n));
        assert(digits_value(d.drop_last()) == 0);
        assert(digits_value(d) == digits_value(d.drop_last()) * 10 + ((d.last() as u32) - 0x30) as nat);
    } else {
        lemma_decimal_digits(n / 10);
        let d = decimal(n);
        assert(d.drop_last() =~= decimal(n / 10));
        assert(d.last() == dc);
        assert forall|i: int| 0 <= i < d.len() implies is_ascii_digit(#[trigger] d[i]) by {
            if i < d.len() - 1 {
                assert(d[i] == decimal(n / 10)[i]);
            }
        }
        vstd::arithmetic::div_mod::lemma_fundamental_div_mod(n as int, 10);
        assert(digits_value(d) == digits_value(d.drop_last()) * 10 + ((d.last() as u32) - 0x30) as nat);
        assert(digits_value(d) == (n / 10) * 10 + n % 10);
    }
}

/// A number written in decimal reads back as that number.
pub proof fn lemma_param_value_decimal(n: u32)
    ensures
        param_value(decimal(n as nat)) == n,
{
    lemma_decimal_digits(n as nat);
    let d = decimal(n as nat);
    assert(is_ascii_digit(d[0]));
    assert(unsigned_digits(d) == d);
}

proof fn lemma_next_semi_shift(a: Seq<char>, p: Seq<char>, k: int)
    requires
        0 <= k <= p.len(),
    ensures
        next_semi(a + p, a.len() + k) == a.len() + next_semi(p, k),
    decreases p.len() - k,
{
    if k < p.len() {
        assert((a + p)[a.len() + k] == p[k]);
        lemma_next_semi_shift(a, p, k + 1);
    }
}

proof fn lemma_params_from_shift(a: Seq<char>, p: Seq<char>, k: int)
    requires
        0 <= k <= p.len(),
    ensures
        params_from(a + p, a.len() + k) == params_from(p, k),
    decreases p.len() + 1 - k,
{
    lemma_next_semi_shift(a, p, k);
    lemma_next_semi(p, k);
    let e = next_semi(p, k);
    assert((a + p).subrange(a.len() + k, a.len() + e) =~= p.subrange(k, e));
    if e < p.len() {
        lemma_params_from_shift(a, p, e + 1);
    }
}

proof fn lemma_next_semi_from(d: Seq<char>, rest: Seq<char>, k: int)
    requires
        forall|i: int| 0 <= i < d.len() ==> is_ascii_digit(#[trigger] d[i]),
        0 <= k <= d.len(),
    ensures
        next_semi(d + rest, k) == next_semi(d + rest, d.len() as int),
    decreases d.len() - k,
{
    if k < d.len() {
        assert((d + rest)[k] == d[k]);
        assert(is_ascii_digit(d[k]));
        lemma_next_semi_from(d, rest, k + 1);
    }
}

/// Parameters written out in decimal and separated by `;` are read back as they
/// were written.
pub proof fn lemma_params_read_back(vs: Seq<u32>)
    requires
        vs.len() > 0,
    ensures
        params_of(param_text(vs)) == vs,
        params_from(param_text(vs), 0) == vs,
        forall|i: int| 0 <= i < param_text(vs).len() ==> #[trigger] param_text(vs)[i] != '\u{1b}'
            && param_text(vs)[i] != '\r' && !is_ascii_alpha(param_text(vs)[i]),
    decreases vs.len(),
{
    let d = decimal(vs[0] as nat);
    lemma_decimal_digits(vs[0] as nat);
    lemma_param_value_decimal(vs[0]);
    let p = param_text(vs);
    if vs.len() == 1 {
        assert(p == d);
        assert(d + Seq::<char>::empty() =~= d);
        lemma_next_semi_from(d, Seq::empty(), 0);
        assert(next_semi(d, d.len() as int) == d.len());
        assert(d.subrange(0, d.len() as int) =~= d);
        assert forall|i: int| 0 <= i < p.len() implies #[trigger] p[i] != '\u{1b}' && p[i] != '\r'
            && !is_ascii_alpha(p[i]) by {
            assert(is_ascii_digit(d[i]));
        }
    } else {
        let tail = vs.drop_first();
        lemma_params_read_back(tail);
        let rest = seq![';'] + param_text(tail);
        assert(p =~= d + rest);
        lemma_next_semi_from(d, rest, 0);
        assert((d + rest)[d.len() as int] == ';');
        assert(next_semi(p, 0) == d.len());
        assert(p.subrange(0, d.len() as int) =~= d);
        let a = d + seq![';'];
        assert(p =~= a + param_text(tail));
        lemma_params_from_shift(a, param_text(tail), 0);
        assert(params_from(p, 0) =~= seq![vs[0]] + tail);
        assert(seq![vs[0]] + tail =~= vs);
        assert forall|i: int| 0 <= i < p.len() implies #[trigger] p[i] != '\u{1b}' && p[i] != '\r'
            && !is_ascii_alpha(p[i]) by {
            if i < d.len() {
                assert(p[i] == d[i]);
                assert(is_ascii_digit(d[i]));
            } else if i == d.len() {
                assert(p[i] == ';');
            } else {
                assert(p[i] == param_text(tail)[i - d.len() - 1]);
            }
        }
    }
}

} // verus!

verus! {

proof fn lemma_csi_end_over_params(full: Seq<char>, p: Seq<char>, k: int)
    requires
        2 <= k <= 2 + p.len(),
        2 + p.len() < full.len(),
        full.subrange(2, 2 + p.len() as int) == p,
        is_ascii_alpha(full[2 + p.len() as int]),
        forall|i: int| 0 <= i < p.len() ==> !is_ascii_alpha(#[trigger] p[i]),
    ensures
        csi_end(full, k) == 2 + p.len(),
    decreases 2 + p.len() - k,
{
    if k < 2 + p.len() {
        assert(full[k] == p[k - 2]);
        lemma_csi_end_over_params(full, p, k + 1);
    }
}

proof fn lemma_scan_plain_tail(t: Seq<char>, i: int, color: Option<crate::color::Rgba>, run: Seq<char>)
    requires
        0 <= i <= t.len(),
        forall|k: int| i <= k < t.len() ==> #[trigger] t[k] != '\u{1b}' && t[k] != '\r',
    ensures
        scan(t, i, color, run) == flush(run + t.skip(i), color),
    decreases t.len() - i,
{
    if i < t.len() {
        lemma_scan_plain_tail(t, i + 1, color, run.push(t[i]));
        assert(run.push(t[i]) + t.skip(i + 1) =~= run + t.skip(i));
    } else {
        assert(run + t.skip(i) =~= run);
    }
}

proof fn lemma_strip_plain_tail(t: Seq<char>, i: int)
    requires
        0 <= i <= t.len(),
        forall|k: int| i <= k < t.len() ==> #[trigger] t[k] != '\u{1b}' && t[k] != '\r',
    ensures
        strip_from(t, i) == t.skip(i),
    decreases t.len() - i,
{
    if i < t.len() {
        lemma_strip_plain_tail(t, i + 1);
        assert(t.skip(i) =~= seq![t[i]] + t.skip(i + 1));
    } else {
        assert(t.skip(i) =~= Seq::<char>::empty());
    }
}

/// The escape sequence `ESC [ <parameters> m` with the parameters in decimal.
pub open spec fn sgr_sequence(vs: Seq<u32>) -> Seq<char> {
    seq!['\u{1b}', '['] + param_text(vs) + seq!['m']
}

/// Text after an SGR sequence is one span, in the color the sequence's
/// parameters select from the default color.
pub proof fn lemma_text_after_sgr(vs: Seq<u32>, t: Seq<char>)
    requires
        vs.len() > 0,
        is_plain(t),
        t.len() > 0,
    ensures
        spec_parse_ansi(sgr_sequence(vs) + t) == seq![(t, sgr_from(vs, 0, None))],
        spec_strip_ansi(sgr_sequence(vs) + t) == t,
{
    lemma_params_read_back(vs);
    let p = param_text(vs);
    let full = sgr_sequence(vs) + t;
    let j: int = 2 + p.len() as int;
    assert(full[0] == '\u{1b}' && full[1] == '[');
    assert(full.subrange(2, j) =~= p);
    assert(full[j] == 'm');
    lemma_csi_end_over_params(full, p, 2);
    assert(csi_at(full, 0));
    assert(full.skip(j + 1) =~= t);
    assert forall|k: int| j + 1 <= k < full.len() implies #[trigger] full[k] != '\u{1b}' && full[k]
        != '\r' by {
        assert(full[k] == t[k - j - 1]);
    }
    let c = sgr_from(params_of(p), 0, None);
    lemma_scan_plain_tail(full, j + 1, c, Seq::empty());
    assert(Seq::<char>::empty() + t =~= t);
    assert(flush(Seq::<char>::empty(), None) + seq![(t, c)] =~= seq![(t, c)]);
    assert(scan(full, 0, None, Seq::empty()) == seq![(t, c)]);
    lemma_strip_plain_tail(full, j + 1);
}

/// Text after `ESC [ 38 ; 2 ; r ; g ; b m` is drawn in the direct color
/// `(r, g, b)`, for every `r`, `g` and `b`.
pub proof fn lemma_text_after_direct_color(r: u32, g: u32, b: u32, t: Seq<char>)
    requires
        is_plain(t),
        t.len() > 0,
    ensures
        spec_parse_ansi(sgr_sequence(seq![38u32, 2, r, g, b]) + t) == seq![
            (t, Some(crate::color::Rgba(r as u8, g as u8, b as u8, 255))),
        ],
{
    lemma_text_after_sgr(seq![38u32, 2, r, g, b], t);
    lemma_sgr_direct_color(r, g, b, Seq::empty(), None);
}

/// Text after `ESC [ 3n m` (n in 0..=7) is drawn in color n of the 16-color
/// palette, and after `ESC [ 0 m` or `ESC [ 39 m` in the default color.
pub proof fn lemma_text_after_basic_color(n: u32, t: Seq<char>)
    requires
        is_plain(t),
        t.len() > 0,
    ensures
        30 <= n <= 37 ==> spec_parse_ansi(sgr_sequence(seq![n]) + t) == seq![
            (t, Some(crate::color::spec_ansi16((n - 30) as u8))),
        ],
        (n == 0 || n == 39) ==> spec_parse_ansi(sgr_sequence(seq![n]) + t) == seq![
            (t, None::<crate::color::Rgba>),
        ],
{
    lemma_text_after_sgr(seq![n], t);
    if n != 38 {
        lemma_sgr_single_code(n, Seq::empty(), None);
        assert(seq![n] + Seq::<u32>::empty() =~= seq![n]);
    }
}

} // verus!

verus! {

/// A submitted non-blank line is remembered as the newest history entry (once,
/// when it repeats the newest one); `clear` and `cls` empty the scrollback,
/// `pwd` prints the working directory, `cd <relative dir>` goes below the
/// working directory, `cd <absolute dir>` goes there, and any other line is run
/// as it was typed, trimmed, without touching the scrollback.
pub proof fn lemma_plan_command(
    s: TermModel,
    raw: Seq<char>,
    cwd: Seq<char>,
    h: Option<Seq<char>>,
)
    requires
        s.wf(),
        spec_trim(raw).len() > 0,
    ensures
        ({
            let cmd = spec_trim(raw);
            let (s1, plan) = plan_step(s, raw, cwd, h);
            &&& s1.history.last() == cmd
            &&& s1.history.len() == s.history.len() + (if s.history.len() > 0 && s.history.last()
                == cmd {
                0int
            } else {
                1int
            })
            &&& s1.history_idx is None
            &&& s1.input == s.input
            &&& (cmd == seq!['c', 'l', 'e', 'a', 'r'] || cmd == seq!['c', 'l', 's']) ==> plan
                == PlanModel::Clear && s1.buf.len() == 0
            &&& cmd == seq!['p', 'w', 'd'] && s.scrollback > 0 ==> plan == PlanModel::Done
                && s1.buf.last().0 == cwd
            &&& (cmd != seq!['c', 'l', 'e', 'a', 'r'] && cmd != seq!['c', 'l', 's'] && cmd != seq![
                'p',
                'w',
                'd',
            ] && !seq!['c', 'd'].is_prefix_of(cmd)) ==> plan == PlanModel::Spawn(cmd) && s1.buf
                == s.buf
        }),
        ({
            let cmd = spec_trim(raw);
            let dir = spec_trim(cmd.skip(2));
            seq!['c', 'd'].is_prefix_of(cmd) && dir.len() > 0 && dir[0] != '/' && dir != seq!['~']
                ==> plan_step(s, raw, cwd, h).1 == PlanModel::ChangeDir(cwd + seq!['/'] + dir)
        }),
        ({
            let cmd = spec_trim(raw);
            let dir = spec_trim(cmd.skip(2));
            seq!['c', 'd'].is_prefix_of(cmd) && dir.len() > 0 && dir[0] == '/'
                ==> plan_step(s, raw, cwd, h).1 == PlanModel::ChangeDir(dir)
        }),
{
}

/// The completion candidates are exactly the entries whose lowered form starts
/// with the lowered partial name.
pub proof fn lemma_matching_members(
    labels: Seq<Seq<char>>,
    lowered: Seq<Seq<char>>,
    lp: Seq<char>,
    x: Seq<char>,
)
    requires
        labels.len() == lowered.len(),
    ensures
        matching(labels, lowered, lp).contains(x) <==> exists|i: int|
            0 <= i < labels.len() && labels[i] == x && lp.is_prefix_of(#[trigger] lowered[i]),
    decreases labels.len(),
{
    if labels.len() > 0 {
        let n = labels.len() - 1;
        lemma_matching_members(labels.drop_last(), lowered.drop_last(), lp, x);
        let r = matching(labels.drop_last(), lowered.drop_last(), lp);
        if exists|i: int|
            0 <= i < labels.len() && labels[i] == x && lp.is_prefix_of(#[trigger] lowered[i]) {
            let i = choose|i: int|
                0 <= i < labels.len() && labels[i] == x && lp.is_prefix_of(#[trigger] lowered[i]);
            if i < n {
                assert(labels.drop_last()[i] == x && lowered.drop_last()[i] == lowered[i]);
                if lp.is_prefix_of(lowered.last()) {
                    assert(r.push(labels.last())[r.push(labels.last()).len() - 1] == labels.last());
                    assert(r.contains(x));
                    let k = choose|k: int| 0 <= k < r.len() && r[k] == x;
                    assert(r.push(labels.last())[k] == x);
                }
            } else {
                assert(matching(labels, lowered, lp) == r.push(labels.last()));
                assert(r.push(labels.last())[r.len() as int] == x);
            }
        } else {
            if matching(labels, lowered, lp).contains(x) {
                let m = matching(labels, lowered, lp);
                let k = choose|k: int| 0 <= k < m.len() && m[k] == x;
                if lp.is_prefix_of(lowered.last()) && k == r.len() {
                    assert(labels[n] == x);
                    assert(lp.is_prefix_of(lowered[n]));
                } else {
                    assert(m[k] == r[k]);
                    assert(r.contains(x));
                    let i = choose|i: int|
                        0 <= i < labels.drop_last().len() && labels.drop_last()[i] == x
                            && lp.is_prefix_of(#[trigger] lowered.drop_last()[i]);
                    assert(labels[i] == x && lp.is_prefix_of(lowered[i]));
                }
            }
        }
    }
}

/// A path under the home directory is shown with `~`, and any other path as it is.
pub proof fn lemma_display_cwd_other(cwd: Seq<char>, home: Seq<char>)
    requires
        !home.is_prefix_of(cwd) || home.len() == 0,
    ensures
        spec_display_cwd(cwd, home) == cwd,
{
}

} // verus!

verus! {

/// On the terminal object, Ctrl with a key whose lowercase text is `c` stops the
/// command whether or not one runs, and Enter echoes `> <command>` for a non-blank
/// input, runs it trimmed, and empties the input.
pub proof fn lemma_object_ctrl_c_and_enter(s: TermModel, t: Seq<char>)
    requires
        s.wf(),
        s.scrollback > 0,
    ensures
        spec_lowercase(t) == seq!['c'] ==> ({
            let (k, out) = obj_key_model(s, KeyModel::Character(t), true);
            &&& out == OutcomeModel::Kill
            &&& !k.running
            &&& k.input.len() == 0
        }),
        !s.running && spec_trim(s.input).len() > 0 ==> ({
            let (e, out) = obj_key_model(s, KeyModel::Enter, false);
            &&& out == OutcomeModel::Run(spec_trim(s.input))
            &&& e.buf.last().0 == seq!['>', ' '] + spec_trim(s.input)
            &&& e.buf.last().1 == LineKind::Echo
            &&& e.input.len() == 0 && e.cursor_col == 0
        }),
{
}

} // verus!

verus! {

/// Browsing history moves one entry at a time: ArrowUp goes to the entry before
/// the current one (staying on the oldest), ArrowDown to the one after, and the
/// input shows that entry with the cursor at its end.
pub proof fn lemma_history_steps(s: TermModel, home: Seq<char>, i: nat)
    requires
        s.wf(),
        !s.running,
        s.history_idx == Some(i),
    ensures
        ({
            let u = key_step(s, KeyModel::ArrowUp, home).0;
            let j: int = if i > 0 { i - 1 } else { 0 };
            &&& u.history_idx == Some(j as nat)
            &&& u.input == s.history[j]
            &&& u.cursor_col == s.history[j].len()
        }),
        i + 1 < s.history.len() ==> ({
            let d = key_step(s, KeyModel::ArrowDown, home).0;
            &&& d.history_idx == Some(i + 1)
            &&& d.input == s.history[i + 1int]
            &&& d.cursor_col == s.history[i + 1int].len()
        }),
{
}

/// `cd` alone or `cd ~` goes to the home directory, or stays in the working
/// directory when home is unknown.
pub proof fn lemma_cd_home(s: TermModel, raw: Seq<char>, cwd: Seq<char>, h: Option<Seq<char>>)
    requires
        s.wf(),
        spec_trim(raw).len() > 0,
        seq!['c', 'd'].is_prefix_of(spec_trim(raw)),
        spec_trim(spec_trim(raw).skip(2)).len() == 0 || spec_trim(spec_trim(raw).skip(2)) == seq!['~'],
        spec_trim(raw) != seq!['c', 'l', 'e', 'a', 'r'] && spec_trim(raw) != seq!['c', 'l', 's'],
        spec_trim(raw) != seq!['p', 'w', 'd'],
    ensures
        plan_step(s, raw, cwd, h).1 == PlanModel::ChangeDir(
            match h {
                Some(home) => home,
                None => cwd,
            },
        ),
{
}

/// Completing with a single new candidate puts it in place of the partial word
/// and forgets the candidates; with several new ones, the input gets their
/// longest common prefix, they are listed as the newest line, and the first
/// Tab after offers them in turn.
pub proof fn lemma_completion_single_and_many(s: TermModel, q: TabQueryModel, cands: Seq<Seq<char>>)
    requires
        s.tab_candidates != cands,
        s.scrollback > 0,
    ensures
        cands.len() == 1 ==> ({
            let s1 = complete_step(s, q, cands);
            &&& s1.input == q.prefix + q.dir_prefix + cands[0]
            &&& s1.cursor_col == s1.input.len()
            &&& s1.tab_candidates.len() == 0
            &&& s1.buf == s.buf
        }),
        cands.len() > 1 ==> ({
            let s1 = complete_step(s, q, cands);
            &&& s1.input == q.prefix + q.dir_prefix + crate::view::spec_lcp(cands)
            &&& s1.cursor_col == s1.input.len()
            &&& s1.tab_candidates == cands
            &&& s1.buf.last().0 == crate::complete::join_with(cands, seq![' ', ' '])
        }),
        cands.len() == 0 ==> complete_step(s, q, cands) == s,
{
}

} // verus!
