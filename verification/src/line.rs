//! Scrollback lines: their kind, their text and their colored spans.
use vstd::prelude::*;
use crate::ansi::{StyledSpan, parse_ansi, spec_parse_ansi, spans_view};
use crate::color::Rgba;

verus! {

/// What produced a line, which decides how it is colored.
#[derive(Clone, Copy, Debug, PartialEq, Eq, Structural)]
pub enum LineKind {
    Output,
    Stderr,
    Error,
    Echo,
}

/// A line of the scrollback. Its colored spans are computed once and cached.
#[derive(Clone, Debug)]
pub struct Line {
    pub text: String,
    pub kind: LineKind,
    pub spans_cache: Option<Vec<StyledSpan>>,
}

/// The spans a line of this kind and text shows when none were given: output and
/// stderr lines are parsed for ANSI colors, other lines are one uncolored span.
pub open spec fn default_spans(text: Seq<char>, kind: LineKind) -> Seq<(Seq<char>, Option<Rgba>)> {
    if kind == LineKind::Output || kind == LineKind::Stderr {
        spec_parse_ansi(text)
    } else {
        seq![(text, None)]
    }
}

/// A line as text, kind and cached spans.
pub type LineModel = (Seq<char>, LineKind, Option<Seq<(Seq<char>, Option<Rgba>)>>);

impl View for Line {
    type V = LineModel;

    open spec fn view(&self) -> LineModel {
        (self.text@, self.kind, self.cached())
    }
}

/// A line of `kind` with text `text` and no cached spans.
pub open spec fn plain_line(text: Seq<char>, kind: LineKind) -> LineModel {
    (text, kind, None)
}

impl Line {
    /// The spans cached in the line, if any.
    pub open spec fn cached(&self) -> Option<Seq<(Seq<char>, Option<Rgba>)>> {
        match self.spans_cache {
            Some(v) => Some(spans_view(v@)),
            None => None,
        }
    }

    /// The spans the line shows: the cached ones, else those of its kind and text.
    pub open spec fn spec_spans(&self) -> Seq<(Seq<char>, Option<Rgba>)> {
        match self.cached() {
            Some(c) => c,
            None => default_spans(self.text@, self.kind),
        }
    }

    /// A line of command output.
    pub fn output(s: String) -> (l: Line)
        ensures
            l@ == plain_line(s@, LineKind::Output),
    {
        Line { text: s, kind: LineKind::Output, spans_cache: None }
    }

    /// A line the command wrote to its standard error.
    pub fn stderr(s: String) -> (l: Line)
        ensures
            l@ == plain_line(s@, LineKind::Stderr),
    {
        Line { text: s, kind: LineKind::Stderr, spans_cache: None }
    }

    /// An error reported by the terminal itself.
    pub fn error(s: String) -> (l: Line)
        ensures
            l@ == plain_line(s@, LineKind::Error),
    {
        Line { text: s, kind: LineKind::Error, spans_cache: None }
    }

    /// An echo of what the user typed.
    pub fn echo(s: String) -> (l: Line)
        ensures
            l@ == plain_line(s@, LineKind::Echo),
    {
        Line { text: s, kind: LineKind::Echo, spans_cache: None }
    }

    /// A line made of pre-colored segments, one span each; its text is empty.
    pub fn precolored(segments: &[(&str, Option<Rgba>)]) -> (l: Line)
        ensures
            l.text@ == Seq::<char>::empty(),
            l.kind == LineKind::Output,
            l.cached() == Some(segments@.map_values(|s: (&str, Option<Rgba>)| (s.0@, s.1))),
    {
        let mut spans: Vec<StyledSpan> = Vec::new();
        let mut i: usize = 0;
        while i < segments.len()
            invariant
                i <= segments@.len(),
                spans_view(spans@) == segments@.take(i as int).map_values(
                    |s: (&str, Option<Rgba>)| (s.0@, s.1),
                ),
            decreases segments@.len() - i,
        {
            let seg = segments[i];
            let ghost before = spans_view(spans@);
            let t = seg.0.to_owned();
            assert(t@ == segments@[i as int].0@);
            spans.push(StyledSpan { text: t, color: seg.1 });
            assert(spans_view(spans@) =~= before.push((t@, seg.1)));
            assert(spans_view(spans@) =~= segments@.take(i + 1).map_values(
                |s: (&str, Option<Rgba>)| (s.0@, s.1),
            ));
            i += 1;
        }
        assert(segments@.take(segments@.len() as int) =~= segments@);
        Line { text: String::new(), kind: LineKind::Output, spans_cache: Some(spans) }
    }

    /// The line's colored spans, computed and cached on first use.
    pub fn get_spans(&mut self) -> (r: &[StyledSpan])
        ensures
            spans_view(r@) == old(self).spec_spans(),
            final(self).text == old(self).text,
            final(self).kind == old(self).kind,
            final(self).cached() == Some(old(self).spec_spans()),
    {
        if self.spans_cache.is_none() {
            let spans = match self.kind {
                LineKind::Output | LineKind::Stderr => parse_ansi(self.text.as_str()),
                _ => {
                    let mut v: Vec<StyledSpan> = Vec::new();
                    v.push(StyledSpan { text: self.text.clone(), color: None });
                    assert(spans_view(v@) =~= seq![(self.text@, None::<Rgba>)]);
                    v
                },
            };
            self.spans_cache = Some(spans);
        }
        match &self.spans_cache {
            Some(v) => v.as_slice(),
            None => {
                assert(false);
                &[]
            },
        }
    }
}

} // verus!
