//! Where each row of the terminal view comes from, and where the cursor is.
use vstd::prelude::*;
use crate::ansi::StyledSpan;
use crate::color::Rgba;
use crate::input::{prompt_idle, prompt_running, prompt_idle_str, prompt_running_str, col_prompt_idle, col_prompt_running, col_echo};
use crate::line::{Line, LineKind, LineModel};
use crate::state::{State, TermModel};
use crate::text::{chars_of, string_of_range, push_char, append_str};
use crate::view::{
    TerminalView, spec_wrap, spec_display_cwd, row_map_upto, pairs_view, strings_view, row_source,
};

verus! {

/// The rows of the view: the scrollback rows (as `(line, row)` pairs), the rows of
/// the working directory, then the rows of the prompt and input; and the row and
/// column of the cursor.
pub struct Layout {
    pub row_map: Vec<(usize, usize)>,
    pub cwd_rows: Vec<String>,
    pub input_rows: Vec<String>,
    pub prompt: String,
    pub prompt_color: Rgba,
    pub buf_visual_count: usize,
    pub prompt_visual_start: usize,
    pub total_visual: usize,
    pub cursor_row: usize,
    pub cursor_col: usize,
}

/// The layout as values.
pub struct LayoutModel {
    pub row_map: Seq<(int, int)>,
    pub cwd_rows: Seq<Seq<char>>,
    pub input_rows: Seq<Seq<char>>,
    pub prompt: Seq<char>,
    pub prompt_color: Rgba,
    pub buf_visual_count: int,
    pub prompt_visual_start: int,
    pub total_visual: int,
    pub cursor_row: int,
    pub cursor_col: int,
}

impl View for Layout {
    type V = LayoutModel;

    open spec fn view(&self) -> LayoutModel {
        LayoutModel {
            row_map: pairs_view(self.row_map@),
            cwd_rows: strings_view(self.cwd_rows@),
            input_rows: strings_view(self.input_rows@),
            prompt: self.prompt@,
            prompt_color: self.prompt_color,
            buf_visual_count: self.buf_visual_count as int,
            prompt_visual_start: self.prompt_visual_start as int,
            total_visual: self.total_visual as int,
            cursor_row: self.cursor_row as int,
            cursor_col: self.cursor_col as int,
        }
    }
}

/// The texts of the scrollback lines.
pub open spec fn buf_texts(s: TermModel) -> Seq<Seq<char>> {
    s.buf.map_values(|l: LineModel| l.0)
}

/// The layout of state `s` on a view `cols` columns wide, with `home` shown as `~`:
/// the prompt shows whether a command runs, and the cursor sits after the prompt
/// and the characters before it, wrapped at `cols`.
pub open spec fn spec_layout(s: TermModel, home: Seq<char>, cols: int) -> LayoutModel {
    let rm = row_map_upto(buf_texts(s), cols, s.buf.len() as int);
    let prompt = if s.running { prompt_running() } else { prompt_idle() };
    let cwd_rows = spec_wrap(spec_display_cwd(s.cwd, home), cols);
    let input_rows = spec_wrap(prompt + s.input, cols);
    let bvc = rm.len() as int;
    let pvs = bvc + cwd_rows.len();
    let cip = (prompt.len() + s.cursor_col) as int;
    LayoutModel {
        row_map: rm,
        cwd_rows,
        input_rows,
        prompt,
        prompt_color: if s.running { col_prompt_running() } else { col_prompt_idle() },
        buf_visual_count: bvc,
        prompt_visual_start: pvs,
        total_visual: pvs + input_rows.len(),
        cursor_row: pvs + cip / cols,
        cursor_col: cip % cols,
    }
}

/// The layout's counts fit in `usize`.
pub open spec fn layout_fits(s: TermModel, home: Seq<char>, cols: int) -> bool {
    let l = spec_layout(s, home, cols);
    &&& l.total_visual <= usize::MAX
    &&& l.prompt.len() + s.cursor_col <= usize::MAX
    &&& l.cursor_row <= usize::MAX
}

impl TerminalView {
    /// The layout of the state on a view `cols >= 1` columns wide; `None` only
    /// when its row counts would not fit in `usize`.
    pub fn layout(state: &State, home: &str, cols: usize) -> (r: Option<Layout>)
        requires
            cols >= 1,
        ensures
            r is None <==> !layout_fits(state@, home@, cols as int),
            r matches Some(l) ==> l@ == spec_layout(state@, home@, cols as int),
    {
        let row_map = Self::build_row_map(state.buf.as_slice(), cols);
        assert(crate::view::line_texts(state.buf@) =~= buf_texts(state@));
        let prompt_str = if state.running { prompt_running_str() } else { prompt_idle_str() };
        let prompt_color = if state.running { Rgba(210, 120, 60, 255) } else { Rgba(200, 160, 255, 255) };
        let cwd_display = Self::display_cwd(state.cwd.as_str(), home);
        let cwd_rows = Self::wrap(cwd_display.as_str(), cols);
        let mut pin = String::new();
        append_str(&mut pin, prompt_str);
        append_str(&mut pin, state.input.as_str());
        let input_rows = Self::wrap(pin.as_str(), cols);
        let ghost l = spec_layout(state@, home@, cols as int);
        let bvc = row_map.len();
        assert(bvc == l.buf_visual_count);
        assert(cwd_rows@.len() == l.cwd_rows.len());
        assert(input_rows@.len() == l.input_rows.len());
        let pvs = match bvc.checked_add(cwd_rows.len()) {
            Some(v) => v,
            None => return None,
        };
        let total = match pvs.checked_add(input_rows.len()) {
            Some(v) => v,
            None => return None,
        };
        let p_len = chars_of(prompt_str).len();
        let cip = match p_len.checked_add(state.cursor_col) {
            Some(v) => v,
            None => return None,
        };
        let cursor_row = match pvs.checked_add(cip / cols) {
            Some(v) => v,
            None => return None,
        };
        let cursor_col = cip % cols;
        let mut prompt = String::new();
        append_str(&mut prompt, prompt_str);
        Some(
            Layout {
                row_map,
                cwd_rows,
                input_rows,
                prompt,
                prompt_color,
                buf_visual_count: bvc,
                prompt_visual_start: pvs,
                total_visual: total,
                cursor_row,
                cursor_col,
            },
        )
    }

    /// The color a line is drawn in where its spans name none: errors in
    /// `col_error`, echoes in the echo color, everything else in `col_text`.
    pub fn line_color(kind: LineKind, col_text: Rgba, col_error: Rgba) -> (c: Rgba)
        ensures
            c == (if kind == LineKind::Error {
                col_error
            } else if kind == LineKind::Echo {
                col_echo()
            } else {
                col_text
            }),
    {
        match kind {
            LineKind::Error => col_error,
            LineKind::Echo => Rgba(100, 100, 100, 255),
            _ => col_text,
        }
    }

    /// `s`, or a single space when it is empty (an empty row is drawn as a space).
    pub fn or_space(s: String) -> (r: String)
        ensures
            r@ == (if s@.len() == 0 { seq![' '] } else { s@ }),
    {
        if s.as_str().is_empty() {
            let mut t = String::new();
            push_char(&mut t, ' ');
            assert(t@ =~= seq![' ']);
            t
        } else {
            s
        }
    }

    /// Row `sub_row` of a wrapped scrollback line (empty past its last row), as drawn.
    pub fn line_row_text(line: &Line, sub_row: usize, cols: usize) -> (r: String)
        ensures
            r@ == ({
                let rows = spec_wrap(row_source(line.text@), cols as int);
                let t = if sub_row < rows.len() { rows[sub_row as int] } else { Seq::empty() };
                if t.len() == 0 { seq![' '] } else { t }
            }),
    {
        let src = Self::row_source(line.text.as_str());
        let rows = Self::wrap(src.as_str(), cols);
        let t = if sub_row < rows.len() {
            let mut x = String::new();
            append_str(&mut x, rows[sub_row].as_str());
            x
        } else {
            String::new()
        };
        Self::or_space(t)
    }

    /// The characters of the prompt's first row after the prompt itself, as drawn.
    pub fn after_prompt(row: &str, prompt_len: usize) -> (r: String)
        ensures
            r@ == ({
                let t = if prompt_len < row@.len() { row@.skip(prompt_len as int) } else { Seq::empty() };
                if t.len() == 0 { seq![' '] } else { t }
            }),
    {
        let v = chars_of(row);
        let t = if prompt_len < v.len() {
            let x = string_of_range(&v, prompt_len, v.len());
            assert(v@.subrange(prompt_len as int, v@.len() as int) =~= v@.skip(prompt_len as int));
            x
        } else {
            String::new()
        };
        Self::or_space(t)
    }

    /// The spans of a line as drawn: each span's text (a space when empty) in its
    /// color, or in `default` when it names none.
    pub fn display_spans(spans: &[StyledSpan], default: Rgba) -> (r: Vec<(String, Rgba)>)
        ensures
            r@.len() == spans@.len(),
            forall|i: int|
                0 <= i < spans@.len() ==> {
                    &&& (#[trigger] r@[i]).0@ == (if spans@[i].text@.len() == 0 {
                        seq![' ']
                    } else {
                        spans@[i].text@
                    })
                    &&& r@[i].1 == (match spans@[i].color {
                        Some(c) => c,
                        None => default,
                    })
                },
    {
        let mut r: Vec<(String, Rgba)> = Vec::new();
        let mut i: usize = 0;
        while i < spans.len()
            invariant
                i <= spans@.len(),
                r@.len() == i,
                forall|j: int|
                    0 <= j < i ==> {
                        &&& (#[trigger] r@[j]).0@ == (if spans@[j].text@.len() == 0 {
                            seq![' ']
                        } else {
                            spans@[j].text@
                        })
                        &&& r@[j].1 == (match spans@[j].color {
                            Some(c) => c,
                            None => default,
                        })
                    },
            decreases spans@.len() - i,
        {
            let sp = &spans[i];
            let color = match sp.color {
                Some(c) => c,
                None => default,
            };
            let mut t = String::new();
            append_str(&mut t, sp.text.as_str());
            let t = Self::or_space(t);
            r.push((t, color));
            i += 1;
        }
        r
    }
}

} // verus!

verus! {

impl TerminalView {
    /// The color of the working directory rows above the prompt.
    pub fn cwd_color() -> (c: Rgba)
        ensures
            c == crate::input::col_cwd(),
    {
        Rgba(90, 90, 110, 255)
    }
}

} // verus!
