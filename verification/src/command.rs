//! Deciding what a submitted command line does: built-in commands act on the
//! terminal, `cd` names a directory to change to, anything else is run.
use vstd::prelude::*;
use crate::line::{Line, LineKind, plain_line};
use crate::state::{State, TermModel};
use crate::text::{chars_of, string_of_range, push_char, append_str, trim, spec_trim};

verus! {

/// What the caller must do for a submitted command line.
pub enum CommandPlan {
    /// The line was blank: nothing happened.
    Nothing,
    /// The scrollback was cleared: reset the view's scrolling.
    Clear,
    /// The command was handled entirely.
    Done,
    /// Change to this directory (resolve it, then call `State::finish_cd`).
    ChangeDir(String),
    /// Run this command in a shell (then call `start_running` or `spawn_failed`).
    Spawn(String),
}

/// What the caller must do for a command line, as values.
pub enum PlanModel {
    Nothing,
    Clear,
    Done,
    ChangeDir(Seq<char>),
    Spawn(Seq<char>),
}

impl View for CommandPlan {
    type V = PlanModel;

    open spec fn view(&self) -> PlanModel {
        match self {
            CommandPlan::Nothing => PlanModel::Nothing,
            CommandPlan::Clear => PlanModel::Clear,
            CommandPlan::Done => PlanModel::Done,
            CommandPlan::ChangeDir(t) => PlanModel::ChangeDir(t@),
            CommandPlan::Spawn(c) => PlanModel::Spawn(c@),
        }
    }
}

/// How resolving a `cd` target went.
pub enum CdResult {
    /// It is a directory, with this canonical path.
    Dir(String),
    /// It exists but is not a directory.
    NotDir,
    /// It could not be resolved, for this reason.
    Failed(String),
}

/// The state with `cmd` remembered in the history (unless it repeats the last
/// entry) and history browsing ended.
pub open spec fn remember(s: TermModel, cmd: Seq<char>) -> TermModel {
    TermModel {
        history: if s.history.len() > 0 && s.history.last() == cmd {
            s.history
        } else {
            s.history.push(cmd)
        },
        history_idx: None,
        ..s
    }
}

/// The directory `cd` goes to: home (or the current directory when home is
/// unknown) for no argument or `~`, an absolute path as given, and a relative path
/// under the current directory.
pub open spec fn cd_target(dir: Seq<char>, cwd: Seq<char>, home: Option<Seq<char>>) -> Seq<char> {
    if dir.len() == 0 || dir == seq!['~'] {
        match home {
            Some(h) => h,
            None => cwd,
        }
    } else if dir[0] == '/' {
        dir
    } else {
        cwd + seq!['/'] + dir
    }
}

/// The state after a command line is submitted in `cwd`, and what the caller must
/// do: blank lines do nothing; otherwise the trimmed line is remembered, `clear`
/// and `cls` clear the scrollback, `pwd` prints `cwd`, a line starting with `cd`
/// changes directory, and anything else is run.
pub open spec fn plan_step(s: TermModel, raw: Seq<char>, cwd: Seq<char>, home: Option<Seq<char>>) -> (
    TermModel,
    PlanModel,
) {
    let cmd = spec_trim(raw);
    if cmd.len() == 0 {
        (s, PlanModel::Nothing)
    } else {
        let s1 = remember(s, cmd);
        if cmd == seq!['c', 'l', 'e', 'a', 'r'] || cmd == seq!['c', 'l', 's'] {
            (TermModel { buf: Seq::empty(), slot_count: 0, dirty: true, ..s1 }, PlanModel::Clear)
        } else if cmd == seq!['p', 'w', 'd'] {
            (s1.pushed(plain_line(cwd, LineKind::Output)), PlanModel::Done)
        } else if seq!['c', 'd'].is_prefix_of(cmd) {
            (s1, PlanModel::ChangeDir(cd_target(spec_trim(cmd.skip(2)), cwd, home)))
        } else {
            (s1, PlanModel::Spawn(cmd))
        }
    }
}

/// The line reporting how a `cd` to `target` went.
pub open spec fn cd_line(target: Seq<char>, r: CdResultModel) -> crate::line::LineModel {
    match r {
        CdResultModel::Dir(p) => plain_line(seq!['~', ' '] + p, LineKind::Output),
        CdResultModel::NotDir => plain_line(
            seq!['n', 'o', 't', ' ', 'a', ' ', 'd', 'i', 'r', 'e', 'c', 't', 'o', 'r', 'y', ':', ' ']
                + target,
            LineKind::Error,
        ),
        CdResultModel::Failed(e) => plain_line(seq!['c', 'd', ':', ' '] + e, LineKind::Error),
    }
}

/// How resolving a `cd` target went, as values.
pub enum CdResultModel {
    Dir(Seq<char>),
    NotDir,
    Failed(Seq<char>),
}

impl View for CdResult {
    type V = CdResultModel;

    open spec fn view(&self) -> CdResultModel {
        match self {
            CdResult::Dir(p) => CdResultModel::Dir(p@),
            CdResult::NotDir => CdResultModel::NotDir,
            CdResult::Failed(e) => CdResultModel::Failed(e@),
        }
    }
}

/// Whether two character vectors are equal.
fn chars_eq(a: &Vec<char>, b: &Vec<char>) -> (r: bool)
    ensures
        r == (a@ == b@),
{
    if a.len() != b.len() {
        return false;
    }
    let mut i: usize = 0;
    while i < a.len()
        invariant
            i <= a.len() == b.len(),
            forall|j: int| 0 <= j < i ==> a@[j] == b@[j],
        decreases a.len() - i,
    {
        if a[i] != b[i] {
            return false;
        }
        i += 1;
    }
    assert(a@ =~= b@);
    true
}

fn literal_chars(s: &str) -> (v: Vec<char>)
    ensures
        v@ == s@,
{
    chars_of(s)
}

impl State {
    /// Plans a submitted command line typed in `cwd` (see `plan_step`); `home` is
    /// the home directory when known.
    pub fn plan_command(&mut self, raw: &str, cwd: &str, home: Option<&str>) -> (plan: CommandPlan)
        requires
            old(self).wf(),
        ensures
            final(self).wf(),
            (final(self)@, plan@) == plan_step(
                old(self)@,
                raw@,
                cwd@,
                match home {
                    Some(h) => Some(h@),
                    None => None,
                },
            ),
    {
        let cmd = trim(raw);
        let cv = chars_of(cmd.as_str());
        if cv.len() == 0 {
            return CommandPlan::Nothing;
        }
        let n = self.history.len();
        let same_as_last = n > 0 && self.history[n - 1] == cmd;
        if !same_as_last {
            self.history.push(cmd.clone());
        }
        self.history_idx = None;
        proof {
            let h = old(self)@.history;
            if !same_as_last {
                assert(self@.history =~= h.push(cmd@));
                assert forall|k: int| 0 <= k < self@.history.len() - 1 implies #[trigger] self@.history[k]
                    != self@.history[k + 1] by {
                    if k == h.len() - 1 {
                        assert(h.last() == h[k]);
                    } else {
                        assert(self@.history[k] == h[k]);
                        assert(self@.history[k + 1] == h[k + 1]);
                    }
                }
            } else {
                assert(h.last() == cmd@);
            }
            assert(self@ == remember(old(self)@, cmd@));
        }
        proof {
            reveal_strlit("clear");
            reveal_strlit("cls");
            reveal_strlit("pwd");
        }
        let c_clear = literal_chars("clear");
        let c_cls = literal_chars("cls");
        let c_pwd = literal_chars("pwd");
        if chars_eq(&cv, &c_clear) || chars_eq(&cv, &c_cls) {
            assert(c_clear@ =~= seq!['c', 'l', 'e', 'a', 'r']);
            assert(c_cls@ =~= seq!['c', 'l', 's']);
            self.clear();
            return CommandPlan::Clear;
        }
        assert(cv@ != seq!['c', 'l', 'e', 'a', 'r'] && cv@ != seq!['c', 'l', 's']) by {
            assert(c_clear@ =~= seq!['c', 'l', 'e', 'a', 'r']);
            assert(c_cls@ =~= seq!['c', 'l', 's']);
        }
        if chars_eq(&cv, &c_pwd) {
            assert(c_pwd@ =~= seq!['p', 'w', 'd']);
            let mut t = String::new();
            append_str(&mut t, cwd);
            self.push(Line::output(t));
            return CommandPlan::Done;
        }
        assert(cv@ != seq!['p', 'w', 'd']) by {
            assert(c_pwd@ =~= seq!['p', 'w', 'd']);
        }
        if cv.len() >= 2 && cv[0] == 'c' && cv[1] == 'd' {
            assert(seq!['c', 'd'].is_prefix_of(cv@));
            let rest = string_of_range(&cv, 2, cv.len());
            assert(cv@.subrange(2, cv@.len() as int) =~= cv@.skip(2));
            let dir = trim(rest.as_str());
            let dv = chars_of(dir.as_str());
            assert(dir@ == spec_trim(cmd@.skip(2)));
            let ghost hm = match home {
                Some(h) => Some(h@),
                None => None::<Seq<char>>,
            };
            let target = if dv.len() == 0 || (dv.len() == 1 && dv[0] == '~') {
                assert(dv.len() == 1 ==> dv@ =~= seq![dv@[0]]);
                assert(dv@.len() == 0 || dv@ == seq!['~']);
                match home {
                    Some(h) => {
                        let mut t = String::new();
                        append_str(&mut t, h);
                        t
                    },
                    None => {
                        let mut t = String::new();
                        append_str(&mut t, cwd);
                        t
                    },
                }
            } else if dv[0] == '/' {
                assert(dv@ != seq!['~']);
                dir
            } else {
                assert(dv@ != seq!['~']);
                let mut t = String::new();
                append_str(&mut t, cwd);
                push_char(&mut t, '/');
                append_str(&mut t, dir.as_str());
                t
            };
            assert(target@ == cd_target(dir@, cwd@, hm));
            return CommandPlan::ChangeDir(target);
        }
        assert(!seq!['c', 'd'].is_prefix_of(cv@)) by {
            if seq!['c', 'd'].is_prefix_of(cv@) {
                assert(cv@[0] == seq!['c', 'd'][0]);
                assert(cv@[1] == seq!['c', 'd'][1]);
            }
        }
        CommandPlan::Spawn(cmd)
    }

    /// Reports how changing to `target` went: `~ <path>` when it is a directory, an
    /// error line otherwise.
    pub fn finish_cd(&mut self, target: &str, result: CdResult)
        requires
            old(self).wf(),
        ensures
            final(self).wf(),
            final(self)@ == old(self)@.pushed(cd_line(target@, result@)),
    {
        let ghost rv = result@;
        match result {
            CdResult::Dir(p) => {
                let mut t = String::new();
                push_char(&mut t, '~');
                push_char(&mut t, ' ');
                append_str(&mut t, p.as_str());
                assert(t@ =~= seq!['~', ' '] + p@);
                self.push(Line::output(t));
            },
            CdResult::NotDir => {
                let mut t = String::new();
                append_str(&mut t, "not a directory: ");
                append_str(&mut t, target);
                proof {
                    reveal_strlit("not a directory: ");
                }
                assert(t@ =~= seq!['n', 'o', 't', ' ', 'a', ' ', 'd', 'i', 'r', 'e', 'c', 't', 'o', 'r', 'y', ':', ' '] + target@);
                self.push(Line::error(t));
            },
            CdResult::Failed(e) => {
                let mut t = String::new();
                append_str(&mut t, "cd: ");
                append_str(&mut t, e.as_str());
                proof {
                    reveal_strlit("cd: ");
                }
                assert(t@ =~= seq!['c', 'd', ':', ' '] + e@);
                self.push(Line::error(t));
            },
        }
    }

    /// Reports that the command could not be started: `failed to spawn: <reason>`.
    pub fn spawn_failed(&mut self, reason: &str)
        requires
            old(self).wf(),
        ensures
            final(self).wf(),
            final(self)@ == old(self)@.pushed(plain_line(spawn_failed_text(reason@), LineKind::Error)),
    {
        let mut t = String::new();
        append_str(&mut t, "failed to spawn: ");
        append_str(&mut t, reason);
        proof {
            reveal_strlit("failed to spawn: ");
        }
        assert(t@ =~= spawn_failed_text(reason@));
        self.push(Line::error(t));
    }
}

/// The text reporting that a command could not be started.
pub open spec fn spawn_failed_text(reason: Seq<char>) -> Seq<char> {
    seq!['f', 'a', 'i', 'l', 'e', 'd', ' ', 't', 'o', ' ', 's', 'p', 'a', 'w', 'n', ':', ' '] + reason
}

} // verus!
