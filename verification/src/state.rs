//! The terminal's state: scrollback, the line being edited, history and
//! completion state, and what happens when a command's output arrives.
use vstd::prelude::*;
use crate::line::{Line, LineKind, LineModel, plain_line};
use crate::text::{i32_to_decimal, signed_decimal, append_str, push_char};

verus! {

/// A message from a running command.
pub enum StreamMsg {
    /// A line the command wrote to its standard output.
    Stdout(String),
    /// A line the command wrote to its standard error.
    Stderr(String),
    /// The command ended, with its exit code when known.
    Done(Option<i32>),
}

/// The state of the terminal that the view draws and the keys edit.
pub struct State {
    pub buf: Vec<Line>,
    pub input: String,
    pub cursor_col: usize,
    pub running: bool,
    pub slot_count: usize,
    pub dirty: bool,
    pub scrollback: usize,
    pub history: Vec<String>,
    pub history_idx: Option<usize>,
    pub cwd: String,
    pub tab_candidates: Vec<String>,
    pub tab_index: usize,
}

/// The state as mathematical values.
pub struct TermModel {
    pub buf: Seq<LineModel>,
    pub input: Seq<char>,
    pub cursor_col: nat,
    pub running: bool,
    pub slot_count: nat,
    pub dirty: bool,
    pub scrollback: nat,
    pub history: Seq<Seq<char>>,
    pub history_idx: Option<nat>,
    pub cwd: Seq<char>,
    pub tab_candidates: Seq<Seq<char>>,
    pub tab_index: nat,
}

impl View for State {
    type V = TermModel;

    open spec fn view(&self) -> TermModel {
        TermModel {
            buf: self.buf@.map_values(|l: Line| l@),
            input: self.input@,
            cursor_col: self.cursor_col as nat,
            running: self.running,
            slot_count: self.slot_count as nat,
            dirty: self.dirty,
            scrollback: self.scrollback as nat,
            history: self.history@.map_values(|h: String| h@),
            history_idx: match self.history_idx {
                Some(i) => Some(i as nat),
                None => None,
            },
            cwd: self.cwd@,
            tab_candidates: self.tab_candidates@.map_values(|c: String| c@),
            tab_index: self.tab_index as nat,
        }
    }
}

impl TermModel {
    /// What every state satisfies: the cursor is within the input, a history
    /// position points into the history, the scrollback holds at most
    /// `scrollback` lines, no two neighbouring history entries are equal, and the
    /// completion index points into the remembered candidates (or is 0).
    pub open spec fn wf(self) -> bool {
        &&& self.cursor_col <= self.input.len()
        &&& (self.tab_index == 0 || self.tab_index < self.tab_candidates.len())
        &&& (self.history_idx matches Some(i) ==> i < self.history.len())
        &&& self.buf.len() <= self.scrollback
        &&& forall|k: int|
            0 <= k < self.history.len() - 1 ==> #[trigger] self.history[k] != self.history[k + 1]
    }
}

/// The scrollback after `l` is added: the oldest line goes when there are more
/// than `scrollback` lines.
pub open spec fn push_line(buf: Seq<LineModel>, l: LineModel, scrollback: nat) -> Seq<LineModel> {
    let b = buf.push(l);
    if b.len() > scrollback {
        b.drop_first()
    } else {
        b
    }
}

impl TermModel {
    /// The state after a line is added to the scrollback.
    pub open spec fn pushed(self, l: LineModel) -> TermModel {
        TermModel { buf: push_line(self.buf, l, self.scrollback), dirty: true, ..self }
    }

    /// The state after the running command ended.
    pub open spec fn stopped(self) -> TermModel {
        TermModel { running: false, ..self }
    }
}

/// The state after one message of a running command: output and error lines are
/// added, and the end of the command adds `exit <code>` for a nonzero code and
/// marks the terminal as no longer running.
pub open spec fn apply_msg(s: TermModel, m: StreamMsgModel) -> TermModel {
    match m {
        StreamMsgModel::Stdout(l) => s.pushed(plain_line(l, LineKind::Output)),
        StreamMsgModel::Stderr(l) => s.pushed(plain_line(l, LineKind::Stderr)),
        StreamMsgModel::Done(code) => {
            let s1 = match code {
                Some(c) => if c != 0 {
                    s.pushed(plain_line(exit_text(c as int), LineKind::Error))
                } else {
                    s
                },
                None => s,
            };
            s1.stopped()
        },
    }
}

/// The text of the line reporting a nonzero exit code.
pub open spec fn exit_text(c: int) -> Seq<char> {
    seq!['e', 'x', 'i', 't', ' '] + signed_decimal(c)
}

/// The state after the messages `ms[0..n]`, in order.
pub open spec fn apply_msgs(s: TermModel, ms: Seq<StreamMsgModel>, n: int) -> TermModel
    decreases n,
{
    if n <= 0 {
        s
    } else {
        apply_msg(apply_msgs(s, ms, n - 1), ms[n - 1])
    }
}

/// A message from a running command, as values.
pub enum StreamMsgModel {
    Stdout(Seq<char>),
    Stderr(Seq<char>),
    Done(Option<i32>),
}

impl View for StreamMsg {
    type V = StreamMsgModel;

    open spec fn view(&self) -> StreamMsgModel {
        match self {
            StreamMsg::Stdout(l) => StreamMsgModel::Stdout(l@),
            StreamMsg::Stderr(l) => StreamMsgModel::Stderr(l@),
            StreamMsg::Done(c) => StreamMsgModel::Done(*c),
        }
    }
}

impl State {
    /// The state holds its invariant.
    pub open spec fn wf(&self) -> bool {
        self@.wf()
    }

    /// A fresh terminal in `cwd` that keeps at most `scrollback` lines.
    pub fn new(scrollback: usize, cwd: String) -> (s: State)
        ensures
            s.wf(),
            s@ == (TermModel {
                buf: Seq::empty(),
                input: Seq::empty(),
                cursor_col: 0,
                running: false,
                slot_count: 0,
                dirty: true,
                scrollback: scrollback as nat,
                history: Seq::empty(),
                history_idx: None,
                cwd: cwd@,
                tab_candidates: Seq::empty(),
                tab_index: 0,
            }),
    {
        let s = State {
            buf: Vec::new(),
            input: String::new(),
            cursor_col: 0,
            running: false,
            slot_count: 0,
            dirty: true,
            scrollback,
            history: Vec::new(),
            history_idx: None,
            cwd,
            tab_candidates: Vec::new(),
            tab_index: 0,
        };
        assert(s@.buf =~= Seq::<LineModel>::empty());
        assert(s@.history =~= Seq::<Seq<char>>::empty());
        assert(s@.tab_candidates =~= Seq::<Seq<char>>::empty());
        s
    }

    /// Marks the running command as ended (the process itself is the caller's).
    pub fn kill_child(&mut self)
        requires
            old(self).wf(),
        ensures
            final(self).wf(),
            final(self)@ == old(self)@.stopped(),
    {
        self.running = false;
    }

    /// Marks a command as running.
    pub fn start_running(&mut self)
        requires
            old(self).wf(),
        ensures
            final(self).wf(),
            final(self)@ == (TermModel { running: true, ..old(self)@ }),
    {
        self.running = true;
    }

    /// Adds a line to the scrollback, dropping the oldest line when more than
    /// `scrollback` would be kept, and marks the view dirty.
    pub fn push(&mut self, line: Line)
        requires
            old(self).wf(),
        ensures
            final(self).wf(),
            final(self)@ == old(self)@.pushed(line@),
    {
        let ghost old_buf = self@.buf;
        let ghost l = line@;
        self.buf.push(line);
        assert(self@.buf =~= old_buf.push(l));
        if self.buf.len() > self.scrollback {
            self.buf.remove(0);
            assert(self@.buf =~= old_buf.push(l).drop_first());
        }
        self.dirty = true;
    }

    /// The number of rows the content takes: the scrollback lines and the prompt.
    pub fn total_lines(&self) -> (n: usize)
        requires
            self.buf@.len() < usize::MAX,
        ensures
            n == self.buf@.len() + 1,
    {
        self.buf.len() + 1
    }

    /// Empties the scrollback and marks the view for rebuilding from scratch.
    pub fn clear(&mut self)
        requires
            old(self).wf(),
        ensures
            final(self).wf(),
            final(self)@ == (TermModel {
                buf: Seq::empty(),
                slot_count: 0,
                dirty: true,
                ..old(self)@
            }),
    {
        self.buf.clear();
        self.slot_count = 0;
        self.dirty = true;
        assert(self@.buf =~= Seq::<LineModel>::empty());
    }

    /// Applies the messages of the running command in order; true when there were any.
    pub fn drain_stream(&mut self, msgs: Vec<StreamMsg>) -> (changed: bool)
        requires
            old(self).wf(),
        ensures
            final(self).wf(),
            changed == (msgs@.len() > 0),
            final(self)@ == apply_msgs(
                old(self)@,
                msgs@.map_values(|m: StreamMsg| m@),
                msgs@.len() as int,
            ),
    {
        let ghost ms = msgs@.map_values(|m: StreamMsg| m@);
        let ghost start = self@;
        let n = msgs.len();
        let mut i: usize = 0;
        for m in it: msgs
            invariant
                self.wf(),
                it.seq() == msgs@,
                ms == msgs@.map_values(|m: StreamMsg| m@),
                self@ == apply_msgs(start, ms, it.index() as int),
        {
            let ghost k = it.index();
            assert(ms[k as int] == m@);
            match m {
                StreamMsg::Stdout(l) => self.push(Line::output(l)),
                StreamMsg::Stderr(l) => self.push(Line::stderr(l)),
                StreamMsg::Done(code) => {
                    if let Some(c) = code {
                        if c != 0 {
                            let mut t = String::new();
                            append_str(&mut t, "exit ");
                            let d = i32_to_decimal(c);
                            append_str(&mut t, d.as_str());
                            proof {
                                reveal_strlit("exit ");
                                assert(t@ =~= exit_text(c as int));
                            }
                            self.push(Line::error(t));
                        }
                    }
                    self.running = false;
                },
            }
        }
        n > 0
    }
}

} // verus!

verus! {

/// The byte offset of the character at position `char_idx` of `s`, or the byte
/// length of `s` when there is no such character.
pub fn char_to_byte(s: &str, char_idx: usize) -> (b: usize)
    ensures
        b == vstd::utf8::encode_utf8(
            s@.take(if char_idx < s@.len() { char_idx as int } else { s@.len() as int }),
        ).len(),
{
    let v = crate::text::chars_of(s);
    let bytes = s.as_bytes();
    let ghost total = vstd::utf8::encode_utf8(s@);
    let blen = bytes.len();
    let limit = if char_idx < v.len() { char_idx } else { v.len() };
    let mut i: usize = 0;
    let mut b: usize = 0;
    while i < limit
        invariant
            limit <= v.len(),
            v@ == s@,
            bytes@ == total,
            total == vstd::utf8::encode_utf8(s@),
            blen == total.len(),
            i <= limit,
            b == vstd::utf8::encode_utf8(s@.take(i as int)).len(),
        decreases limit - i,
    {
        let w = crate::text::utf8_width(v[i]);
        proof {
            let t = s@.take(i + 1);
            assert(t =~= s@.take(i as int) + seq![s@[i as int]]);
            crate::text::lemma_encode_concat(s@.take(i as int), seq![s@[i as int]]);
            assert(seq![s@[i as int]].drop_first() =~= Seq::<char>::empty());
            reveal_with_fuel(vstd::utf8::encode_utf8, 2);
            assert(vstd::utf8::encode_utf8(seq![s@[i as int]]) =~= vstd::utf8::encode_scalar(
                s@[i as int] as u32,
            ));
            assert(s@ =~= t + s@.skip(i + 1));
            crate::text::lemma_encode_concat(t, s@.skip(i + 1));
            assert(total == vstd::utf8::encode_utf8(t + s@.skip(i + 1)));
            assert(b + w == vstd::utf8::encode_utf8(t).len());
            assert(vstd::utf8::encode_utf8(t).len() <= total.len());
        }
        b = b + w;
        i += 1;
    }
    b
}

proof fn lemma_prefix_boundary(s: Seq<char>, k: int)
    requires
        0 <= k <= s.len(),
    ensures
        vstd::utf8::is_char_boundary(
            vstd::utf8::encode_utf8(s),
            vstd::utf8::encode_utf8(s.take(k)).len() as int,
        ),
    decreases k,
{
    broadcast use vstd::utf8::encode_utf8_valid_utf8;
    if k > 0 {
        let bytes = vstd::utf8::encode_utf8(s);
        vstd::utf8::encode_utf8_first_scalar(s);
        let rest = s.drop_first();
        assert(vstd::utf8::pop_first_scalar(bytes) =~= vstd::utf8::encode_utf8(rest));
        lemma_prefix_boundary(rest, k - 1);
        assert(s.take(k).drop_first() =~= rest.take(k - 1));
        assert(s.take(k)[0] == s[0]);
    }
}

/// The offset `char_to_byte` gives is always a character boundary of the text.
pub proof fn lemma_char_to_byte_boundary(s: Seq<char>, char_idx: nat)
    ensures
        vstd::utf8::is_char_boundary(
            vstd::utf8::encode_utf8(s),
            vstd::utf8::encode_utf8(
                s.take(if char_idx < s.len() { char_idx as int } else { s.len() as int }),
            ).len() as int,
        ),
{
    lemma_prefix_boundary(s, if char_idx < s.len() { char_idx as int } else { s.len() as int });
}

} // verus!

verus! {

/// The state after the lines `ls[0..n]` are pushed in order.
pub open spec fn push_all(s: TermModel, ls: Seq<LineModel>, n: int) -> TermModel
    decreases n,
{
    if n <= 0 {
        s
    } else {
        push_all(s, ls, n - 1).pushed(ls[n - 1])
    }
}

impl State {
    /// Pushes the lines in order (see `push`).
    pub fn push_many(&mut self, lines: Vec<Line>)
        requires
            old(self).wf(),
        ensures
            final(self).wf(),
            final(self)@ == push_all(
                old(self)@,
                lines@.map_values(|l: Line| l@),
                lines@.len() as int,
            ),
    {
        let ghost ls = lines@.map_values(|l: Line| l@);
        let ghost start = self@;
        for l in it: lines
            invariant
                self.wf(),
                it.seq() == lines@,
                ls == lines@.map_values(|l: Line| l@),
                self@ == push_all(start, ls, it.index() as int),
        {
            assert(ls[it.index() as int] == l@);
            self.push(l);
        }
    }
}

} // verus!
