//! ANSI escape handling: stripping CSI sequences and splitting text into
//! colored spans according to SGR color codes. Text is handled character by
//! character, so any UTF-8 text outside the escape sequences is kept whole.
use vstd::prelude::*;
use crate::color::{Rgba, spec_ansi16, spec_ansi256, ansi16, ansi256_color};
use crate::text::{push_char, chars_of, vec_range};

verus! {

/// A run of text drawn in one color (`None`: the line's default color).
#[derive(Clone, Debug)]
pub struct StyledSpan {
    pub text: String,
    pub color: Option<Rgba>,
}

impl View for StyledSpan {
    type V = (Seq<char>, Option<Rgba>);

    open spec fn view(&self) -> (Seq<char>, Option<Rgba>) {
        (self.text@, self.color)
    }
}

/// The views of a sequence of spans.
pub open spec fn spans_view(v: Seq<StyledSpan>) -> Seq<(Seq<char>, Option<Rgba>)> {
    v.map_values(|s: StyledSpan| s@)
}

/// An ASCII letter, which ends a CSI sequence.
pub open spec fn is_ascii_alpha(c: char) -> bool {
    ('A' <= c && c <= 'Z') || ('a' <= c && c <= 'z')
}

/// An escape-bracket pair (ESC `[`) starts at `i`.
pub open spec fn csi_at(t: Seq<char>, i: int) -> bool {
    0 <= i && i + 1 < t.len() && t[i] == '\u{1b}' && t[i + 1] == '['
}

/// The index of the first ASCII letter at or after `j`, or `t.len()` if there is none.
pub open spec fn csi_end(t: Seq<char>, j: int) -> int
    decreases t.len() - j,
{
    if j >= t.len() {
        t.len() as int
    } else if is_ascii_alpha(t[j]) {
        j
    } else {
        csi_end(t, j + 1)
    }
}

pub proof fn lemma_csi_end(t: Seq<char>, j: int)
    requires
        0 <= j <= t.len(),
    ensures
        j <= csi_end(t, j) <= t.len(),
        csi_end(t, j) < t.len() ==> is_ascii_alpha(t[csi_end(t, j)]),
        forall|k: int| j <= k < csi_end(t, j) ==> !is_ascii_alpha(#[trigger] t[k]),
    decreases t.len() - j,
{
    if j < t.len() && !is_ascii_alpha(t[j]) {
        lemma_csi_end(t, j + 1);
    }
}

/// The characters that remain of `t[i..]` once every CSI sequence (ESC `[`, then
/// anything up to and including the first ASCII letter) and every carriage
/// return is removed.
pub open spec fn strip_from(t: Seq<char>, i: int) -> Seq<char>
    decreases t.len() + 1 - i,
{
    if i < 0 || i >= t.len() {
        Seq::empty()
    } else if csi_at(t, i) {
        proof {
            lemma_csi_end(t, i + 2);
        }
        strip_from(t, csi_end(t, i + 2) + 1)
    } else if t[i] == '\r' {
        strip_from(t, i + 1)
    } else {
        seq![t[i]] + strip_from(t, i + 1)
    }
}

/// The visible characters of the text `t`.
pub open spec fn spec_strip_ansi(t: Seq<char>) -> Seq<char> {
    strip_from(t, 0)
}

/// Whether `c` is an ASCII letter.
pub fn is_alpha_char(c: char) -> (r: bool)
    ensures
        r == is_ascii_alpha(c),
{
    ('A' <= c && c <= 'Z') || ('a' <= c && c <= 'z')
}

/// The characters `v` with CSI sequences and carriage returns removed.
pub fn strip_ansi_chars(v: &Vec<char>) -> (out: String)
    ensures
        out@ == spec_strip_ansi(v@),
{
    let mut out = String::new();
    let len = v.len();
    let mut i: usize = 0;
    while i < len
        invariant
            len == v@.len(),
            i <= len,
            spec_strip_ansi(v@) == out@ + strip_from(v@, i as int),
        decreases len - i,
    {
        if v[i] == '\u{1b}' && i + 1 < len && v[i + 1] == '[' {
            let mut j = i + 2;
            while j < len && !is_alpha_char(v[j])
                invariant
                    len == v@.len(),
                    i + 2 <= j <= len,
                    csi_end(v@, i + 2) == csi_end(v@, j as int),
                decreases len - j,
            {
                j += 1;
            }
            proof {
                lemma_csi_end(v@, i + 2);
                assert(strip_from(v@, i as int) == strip_from(v@, j + 1));
            }
            if j >= len {
                i = len;
            } else {
                i = j + 1;
            }
        } else if v[i] == '\r' {
            i += 1;
        } else {
            let ghost before = out@;
            push_char(&mut out, v[i]);
            proof {
                assert(out@ + strip_from(v@, i + 1) =~= before + strip_from(v@, i as int));
            }
            i += 1;
        }
    }
    out
}

} // verus!

verus! {

pub open spec fn is_ascii_digit(c: char) -> bool {
    '0' <= c && c <= '9'
}

/// The number written by the decimal digits `d`.
pub open spec fn digits_value(d: Seq<char>) -> nat
    decreases d.len(),
{
    if d.len() == 0 {
        0
    } else {
        digits_value(d.drop_last()) * 10 + ((d.last() as u32) - 0x30) as nat
    }
}

/// What `str::parse::<u32>` gives for the text `f`: an optional `+` followed by
/// one or more ASCII digits whose value fits in a `u32`; anything else fails.
pub open spec fn spec_parse_u32(f: Seq<char>) -> Option<u32> {
    let d = unsigned_digits(f);
    if d.len() > 0 && (forall|i: int| 0 <= i < d.len() ==> is_ascii_digit(#[trigger] d[i]))
        && digits_value(d) <= u32::MAX {
        Some(digits_value(d) as u32)
    } else {
        None
    }
}

/// The text after an optional leading `+` that is not the whole text.
pub open spec fn unsigned_digits(f: Seq<char>) -> Seq<char> {
    if f.len() > 1 && f[0] == '+' {
        f.drop_first()
    } else {
        f
    }
}

/// A parameter's value: its number, or 0 when it does not parse.
pub open spec fn param_value(f: Seq<char>) -> u32 {
    match spec_parse_u32(f) {
        Some(v) => v,
        None => 0,
    }
}

/// The index of the first `;` at or after `k`, or `p.len()`.
pub open spec fn next_semi(p: Seq<char>, k: int) -> int
    decreases p.len() - k,
{
    if k >= p.len() {
        p.len() as int
    } else if p[k] == ';' {
        k
    } else {
        next_semi(p, k + 1)
    }
}

pub proof fn lemma_next_semi(p: Seq<char>, k: int)
    requires
        0 <= k <= p.len(),
    ensures
        k <= next_semi(p, k) <= p.len(),
        next_semi(p, k) < p.len() ==> p[next_semi(p, k)] == ';',
        forall|m: int| k <= m < next_semi(p, k) ==> p[m] != ';',
    decreases p.len() - k,
{
    if k < p.len() && p[k] != ';' {
        lemma_next_semi(p, k + 1);
    }
}

/// The values of the `;`-separated fields of `p` starting at index `k`.
pub open spec fn params_from(p: Seq<char>, k: int) -> Seq<u32>
    decreases p.len() + 1 - k,
{
    if k < 0 || k > p.len() {
        Seq::empty()
    } else {
        proof {
            lemma_next_semi(p, k);
        }
        let e = next_semi(p, k);
        let v = param_value(p.subrange(k, e));
        if e < p.len() {
            seq![v] + params_from(p, e + 1)
        } else {
            seq![v]
        }
    }
}

/// The numeric parameters of an SGR sequence whose parameter text is `p`: a single 0
/// when `p` is empty, else the value of each `;`-separated field.
pub open spec fn params_of(p: Seq<char>) -> Seq<u32> {
    if p.len() == 0 {
        seq![0u32]
    } else {
        params_from(p, 0)
    }
}

/// The value of the field `p[start..end]`, or 0 when it is not a `u32` in decimal.
fn parse_field(p: &Vec<char>, start: usize, end: usize) -> (v: u32)
    requires
        start <= end <= p.len(),
    ensures
        v == param_value(p@.subrange(start as int, end as int)),
{
    let ghost f = p@.subrange(start as int, end as int);
    let mut k: usize = start;
    if end - start > 1 && p[start] == '+' {
        k = start + 1;
    }
    let k0 = k;
    let ghost d = p@.subrange(k0 as int, end as int);
    assert(d =~= unsigned_digits(f));
    if k0 == end {
        return 0;
    }
    let mut v: u64 = 0;
    let mut over = false;
    while k < end
        invariant
            start <= k0 <= k <= end <= p.len(),
            d == p@.subrange(k0 as int, end as int),
            f == p@.subrange(start as int, end as int),
            d == unsigned_digits(f),
            forall|i: int| k0 <= i < k ==> is_ascii_digit(#[trigger] p@[i]),
            !over ==> v == digits_value(p@.subrange(k0 as int, k as int)) && v <= u32::MAX,
            over ==> digits_value(p@.subrange(k0 as int, k as int)) > u32::MAX,
        decreases end - k,
    {
        let c = p[k];
        if !('0' <= c && c <= '9') {
            assert(d[k - k0] == c);
            return 0;
        }
        proof {
            let s = p@.subrange(k0 as int, k + 1);
            assert(s.drop_last() =~= p@.subrange(k0 as int, k as int));
            assert(s.last() == c);
        }
        if !over {
            let dv = (c as u32) - 0x30;
            v = v * 10 + dv as u64;
            if v > 0xffff_ffff {
                over = true;
            }
        }
        k += 1;
    }
    proof {
        assert(p@.subrange(k0 as int, end as int) == d);
        assert forall|i: int| 0 <= i < d.len() implies is_ascii_digit(#[trigger] d[i]) by {
            assert(d[i] == p@[k0 + i]);
        }
    }
    if over {
        0
    } else {
        v as u32
    }
}

/// The numeric parameters of the SGR sequence whose parameter text is `p`.
pub fn sgr_params(p: &Vec<char>) -> (r: Vec<u32>)
    ensures
        r@ == params_of(p@),
{
    if p.len() == 0 {
        return vec![0];
    }
    let len = p.len();
    let mut out: Vec<u32> = Vec::new();
    let mut start: usize = 0;
    loop
        invariant
            len == p@.len(),
            len > 0,
            start <= len,
            params_of(p@) == out@ + params_from(p@, start as int),
        decreases len - start,
    {
        let mut e = start;
        while e < len && p[e] != ';'
            invariant
                start <= e <= len,
                len == p@.len(),
                next_semi(p@, start as int) == next_semi(p@, e as int),
            decreases len - e,
        {
            e += 1;
        }
        proof {
            lemma_next_semi(p@, start as int);
        }
        let v = parse_field(p, start, e);
        let ghost before = out@;
        out.push(v);
        if e >= len {
            assert(out@ =~= before + params_from(p@, start as int));
            return out;
        }
        assert(before + params_from(p@, start as int) =~= out@ + params_from(p@, e + 1));
        start = e + 1;
    }
}

/// The color in effect after applying the SGR parameters `ps[pi..]` to `color`:
/// 0 and 39 reset it, 30..=37 and 90..=97 choose one of the 16 ANSI colors,
/// `38;5;n` chooses 256-palette color `n` and `38;2;r;g;b` a direct color (each
/// value taken modulo 256); every other code leaves it unchanged.
pub open spec fn sgr_from(ps: Seq<u32>, pi: int, color: Option<Rgba>) -> Option<Rgba>
    decreases ps.len() - pi,
{
    if pi < 0 || pi >= ps.len() {
        color
    } else {
        let n = ps[pi];
        if n == 0 || n == 39 {
            sgr_from(ps, pi + 1, None)
        } else if 30 <= n && n <= 37 {
            sgr_from(ps, pi + 1, Some(spec_ansi16((n - 30) as u8)))
        } else if 90 <= n && n <= 97 {
            sgr_from(ps, pi + 1, Some(spec_ansi16((n - 90 + 8) as u8)))
        } else if n == 38 && pi + 2 < ps.len() && ps[pi + 1] == 5 {
            sgr_from(ps, pi + 3, Some(spec_ansi256(ps[pi + 2] as u8)))
        } else if n == 38 && pi + 4 < ps.len() && ps[pi + 1] == 2 {
            sgr_from(
                ps,
                pi + 5,
                Some(Rgba(ps[pi + 2] as u8, ps[pi + 3] as u8, ps[pi + 4] as u8, 255)),
            )
        } else {
            sgr_from(ps, pi + 1, color)
        }
    }
}

/// The color in effect after the SGR parameters `ps` are applied to `color`.
pub fn apply_sgr(ps: &Vec<u32>, color: Option<Rgba>) -> (r: Option<Rgba>)
    ensures
        r == sgr_from(ps@, 0, color),
{
    let mut cur = color;
    let mut pi: usize = 0;
    let len = ps.len();
    while pi < len
        invariant
            len == ps@.len(),
            pi <= len,
            sgr_from(ps@, 0, color) == sgr_from(ps@, pi as int, cur),
        decreases len - pi,
    {
        let n = ps[pi];
        if n == 0 || n == 39 {
            cur = None;
            pi += 1;
        } else if 30 <= n && n <= 37 {
            cur = Some(ansi16((n - 30) as u8));
            pi += 1;
        } else if 90 <= n && n <= 97 {
            cur = Some(ansi16((n - 90 + 8) as u8));
            pi += 1;
        } else if n == 38 && len - pi > 2 && ps[pi + 1] == 5 {
            cur = Some(ansi256_color(ps[pi + 2] as u8));
            pi += 3;
        } else if n == 38 && len - pi > 4 && ps[pi + 1] == 2 {
            cur = Some(Rgba(ps[pi + 2] as u8, ps[pi + 3] as u8, ps[pi + 4] as u8, 255));
            pi += 5;
        } else {
            pi += 1;
        }
    }
    cur
}

} // verus!

verus! {

/// The span made of the pending run, if the run is not empty.
pub open spec fn flush(run: Seq<char>, color: Option<Rgba>) -> Seq<(Seq<char>, Option<Rgba>)> {
    if run.len() == 0 {
        Seq::empty()
    } else {
        seq![(run, color)]
    }
}

/// The spans produced from the characters `t[i..]` while `color` is in effect and
/// `run` holds the text not yet closed: a CSI sequence ending in `m` closes the run
/// and applies its SGR parameters, any other CSI sequence and carriage returns are
/// skipped, and every other character extends the run.
pub open spec fn scan(t: Seq<char>, i: int, color: Option<Rgba>, run: Seq<char>) -> Seq<
    (Seq<char>, Option<Rgba>),
>
    decreases t.len() + 1 - i,
{
    if i < 0 || i >= t.len() {
        flush(run, color)
    } else if csi_at(t, i) {
        proof {
            lemma_csi_end(t, i + 2);
        }
        let j = csi_end(t, i + 2);
        if j < t.len() && t[j] == 'm' {
            flush(run, color) + scan(
                t,
                j + 1,
                sgr_from(params_of(t.subrange(i + 2, j)), 0, color),
                Seq::empty(),
            )
        } else {
            scan(t, j + 1, color, run)
        }
    } else if t[i] == '\r' {
        scan(t, i + 1, color, run)
    } else {
        scan(t, i + 1, color, run.push(t[i]))
    }
}

/// The colored spans of the text `t`; a single uncolored space when no text remains.
pub open spec fn spec_parse_ansi(t: Seq<char>) -> Seq<(Seq<char>, Option<Rgba>)> {
    let r = scan(t, 0, None, Seq::empty());
    if r.len() == 0 {
        seq![(seq![' '], None)]
    } else {
        r
    }
}

/// Splits `s` into colored spans: SGR color codes (`ESC [ ... m`) start a new span in
/// the color they select, other CSI sequences and carriage returns are dropped, and
/// every other character of `s` is kept.
pub fn parse_ansi(s: &str) -> (spans: Vec<StyledSpan>)
    ensures
        spans_view(spans@) == spec_parse_ansi(s@),
{
    let v = chars_of(s);
    let ghost t = v@;
    let len = v.len();
    let mut spans: Vec<StyledSpan> = Vec::new();
    let mut cur_color: Option<Rgba> = None;
    let mut run = String::new();
    let mut i: usize = 0;
    while i < len
        invariant
            len == t.len(),
            t == v@,
            i <= len,
            scan(t, 0, None, Seq::empty()) == spans_view(spans@) + scan(
                t,
                i as int,
                cur_color,
                run@,
            ),
        decreases len - i,
    {
        if v[i] == '\u{1b}' && i + 1 < len && v[i + 1] == '[' {
            let seq_start = i + 2;
            let mut j = seq_start;
            while j < len && !is_alpha_char(v[j])
                invariant
                    len == t.len(),
                    t == v@,
                    seq_start <= j <= len,
                    csi_end(t, seq_start as int) == csi_end(t, j as int),
                decreases len - j,
            {
                j += 1;
            }
            proof {
                lemma_csi_end(t, seq_start as int);
            }
            if j < len && v[j] == 'm' {
                let p = vec_range(&v, seq_start, j);
                let params = sgr_params(&p);
                let ghost before = spans_view(spans@);
                let ghost old_run = run@;
                let ghost old_color = cur_color;
                if run.as_str().is_empty() {
                    assert(before + flush(old_run, old_color) =~= before);
                } else {
                    let r = run;
                    spans.push(StyledSpan { text: r, color: cur_color });
                    run = String::new();
                    assert(spans_view(spans@) =~= before + flush(old_run, old_color));
                }
                cur_color = apply_sgr(&params, cur_color);
                proof {
                    assert(scan(t, i as int, old_color, old_run) == flush(old_run, old_color)
                        + scan(t, j + 1, cur_color, Seq::empty()));
                    assert(run@ =~= Seq::<char>::empty());
                    assert(before + (flush(old_run, old_color) + scan(t, j + 1, cur_color, run@))
                        =~= spans_view(spans@) + scan(t, j + 1, cur_color, run@));
                }
            } else {
                assert(scan(t, i as int, cur_color, run@) == scan(t, j + 1, cur_color, run@));
            }
            proof {
                if j >= len {
                    assert(scan(t, j + 1, cur_color, run@) == scan(t, len as int, cur_color, run@));
                }
            }
            if j >= len {
                i = len;
            } else {
                i = j + 1;
            }
        } else if v[i] == '\r' {
            i += 1;
        } else {
            push_char(&mut run, v[i]);
            i += 1;
        }
    }
    if !run.as_str().is_empty() {
        spans.push(StyledSpan { text: run, color: cur_color });
    }
    if spans.len() == 0 {
        let mut sp = String::new();
        push_char(&mut sp, ' ');
        spans.push(StyledSpan { text: sp, color: None });
    }
    spans
}

} // verus!

verus! {

/// The text of a sequence of spans, concatenated.
pub open spec fn texts(s: Seq<(Seq<char>, Option<Rgba>)>) -> Seq<char>
    decreases s.len(),
{
    if s.len() == 0 {
        Seq::empty()
    } else {
        s[0].0 + texts(s.drop_first())
    }
}

proof fn lemma_texts_concat(a: Seq<(Seq<char>, Option<Rgba>)>, c: Seq<(Seq<char>, Option<Rgba>)>)
    ensures
        texts(a + c) == texts(a) + texts(c),
    decreases a.len(),
{
    if a.len() == 0 {
        assert(a + c =~= c);
        assert(texts(a) + texts(c) =~= texts(c));
    } else {
        assert((a + c).drop_first() =~= a.drop_first() + c);
        lemma_texts_concat(a.drop_first(), c);
        assert(texts(a + c) =~= a[0].0 + (texts(a.drop_first()) + texts(c)));
    }
}

proof fn lemma_scan_texts(t: Seq<char>, i: int, color: Option<Rgba>, run: Seq<char>)
    requires
        i >= 0,
    ensures
        texts(scan(t, i, color, run)) == run + strip_from(t, i),
        forall|k: int|
            0 <= k < scan(t, i, color, run).len() ==> (#[trigger] scan(t, i, color, run)[k]).0.len()
                > 0,
    decreases t.len() + 1 - i,
{
    let fl = flush(run, color);
    assert(texts(fl) == run) by {
        reveal_with_fuel(texts, 2);
        if run.len() > 0 {
            assert(fl.drop_first() =~= Seq::<(Seq<char>, Option<Rgba>)>::empty());
            assert(run + Seq::<char>::empty() =~= run);
        }
    }
    if i >= t.len() {
        assert(run + strip_from(t, i) =~= run);
    } else if csi_at(t, i) {
        lemma_csi_end(t, i + 2);
        let j = csi_end(t, i + 2);
        if j < t.len() && t[j] == 'm' {
            let c2 = sgr_from(params_of(t.subrange(i + 2, j)), 0, color);
            lemma_scan_texts(t, j + 1, c2, Seq::empty());
            let rest = scan(t, j + 1, c2, Seq::empty());
            lemma_texts_concat(fl, rest);
            assert(Seq::<char>::empty() + strip_from(t, j + 1) =~= strip_from(t, j + 1));
            let r = scan(t, i, color, run);
            assert(r == fl + rest);
            assert forall|k: int| 0 <= k < r.len() implies (#[trigger] r[k]).0.len() > 0 by {
                if k < fl.len() {
                    assert(r[k] == fl[k]);
                } else {
                    assert(r[k] == rest[k - fl.len()]);
                }
            }
        } else {
            lemma_scan_texts(t, j + 1, color, run);
        }
    } else if t[i] == '\r' {
        lemma_scan_texts(t, i + 1, color, run);
    } else {
        lemma_scan_texts(t, i + 1, color, run.push(t[i]));
        assert(run.push(t[i]) + strip_from(t, i + 1) =~= run + (seq![t[i]] + strip_from(
            t,
            i + 1,
        )));
    }
}

/// The spans of a text are never empty, none of them has empty text, and their
/// texts put together are exactly the visible characters of the text (those that
/// stripping the escape sequences leaves), or a single space when there are none.
pub proof fn lemma_parse_ansi_shows_stripped_text(t: Seq<char>)
    ensures
        spec_parse_ansi(t).len() > 0,
        forall|k: int|
            0 <= k < spec_parse_ansi(t).len() ==> (#[trigger] spec_parse_ansi(t)[k]).0.len() > 0,
        spec_strip_ansi(t).len() > 0 ==> texts(spec_parse_ansi(t)) == spec_strip_ansi(t),
        spec_strip_ansi(t).len() == 0 ==> texts(spec_parse_ansi(t)) == seq![' '],
{
    lemma_scan_texts(t, 0, None, Seq::empty());
    let r = scan(t, 0, None, Seq::empty());
    assert(Seq::<char>::empty() + strip_from(t, 0) =~= strip_from(t, 0));
    if r.len() == 0 {
        assert(texts(r) == Seq::<char>::empty());
        let sp = seq![(seq![' '], None::<Rgba>)];
        assert(sp.drop_first() =~= Seq::<(Seq<char>, Option<Rgba>)>::empty());
        reveal_with_fuel(texts, 2);
        assert(texts(sp) =~= seq![' ']);
    } else {
        assert(r[0].0.len() > 0);
        assert(texts(r) == r[0].0 + texts(r.drop_first()));
    }
}

/// Text with no escape character and no carriage return.
pub open spec fn is_plain(t: Seq<char>) -> bool {
    forall|k: int| 0 <= k < t.len() ==> #[trigger] t[k] != '\u{1b}' && t[k] != '\r'
}

proof fn lemma_strip_plain_from(t: Seq<char>, i: int)
    requires
        0 <= i <= t.len(),
        is_plain(t),
    ensures
        strip_from(t, i) == t.skip(i),
    decreases t.len() - i,
{
    if i < t.len() {
        lemma_strip_plain_from(t, i + 1);
        assert(t.skip(i) =~= seq![t[i]] + t.skip(i + 1));
    } else {
        assert(t.skip(i) =~= Seq::<char>::empty());
    }
}

proof fn lemma_scan_plain(t: Seq<char>, i: int, color: Option<Rgba>, run: Seq<char>)
    requires
        0 <= i <= t.len(),
        is_plain(t),
    ensures
        scan(t, i, color, run) == flush(run + t.skip(i), color),
    decreases t.len() - i,
{
    if i < t.len() {
        lemma_scan_plain(t, i + 1, color, run.push(t[i]));
        assert(run.push(t[i]) + t.skip(i + 1) =~= run + t.skip(i));
    } else {
        assert(run + t.skip(i) =~= run);
    }
}

/// Text without escapes or carriage returns passes through whole, whatever
/// characters it holds: stripping keeps it as it is, and it is one uncolored span
/// (a single space when it is empty).
pub proof fn lemma_plain_text_unchanged(t: Seq<char>)
    requires
        is_plain(t),
    ensures
        spec_strip_ansi(t) == t,
        t.len() > 0 ==> spec_parse_ansi(t) == seq![(t, None::<Rgba>)],
        t.len() == 0 ==> spec_parse_ansi(t) == seq![(seq![' '], None::<Rgba>)],
{
    lemma_strip_plain_from(t, 0);
    lemma_scan_plain(t, 0, None, Seq::empty());
    assert(t.skip(0) =~= t);
    assert(Seq::<char>::empty() + t =~= t);
}

} // verus!
