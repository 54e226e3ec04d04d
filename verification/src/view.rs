//! The text layout of the terminal view: wrapping, row maps, the working
//! directory shown above the prompt, and completion prefixes.
use vstd::prelude::*;
use crate::text::{chars_of, string_of_range, spec_is_whitespace, is_whitespace, push_char, append_str};
use crate::ansi::{spec_strip_ansi, strip_ansi_chars};

verus! {

/// The terminal view; its associated functions compute what the view draws.
pub struct TerminalView;

/// The views of a sequence of strings.
pub open spec fn strings_view(v: Seq<String>) -> Seq<Seq<char>> {
    v.map_values(|s: String| s@)
}

/// The index of the last whitespace character among `t[0..k]`, or -1.
pub open spec fn last_ws_before(t: Seq<char>, k: int) -> int
    decreases k,
{
    if k <= 0 {
        -1
    } else if spec_is_whitespace(t[k - 1]) {
        k - 1
    } else {
        last_ws_before(t, k - 1)
    }
}

pub proof fn lemma_last_ws_before(t: Seq<char>, k: int)
    ensures
        -1 <= last_ws_before(t, k) < k || (k <= 0 && last_ws_before(t, k) == -1),
        last_ws_before(t, k) >= 0 ==> spec_is_whitespace(t[last_ws_before(t, k)]),
    decreases k,
{
    if k > 0 && !spec_is_whitespace(t[k - 1]) {
        lemma_last_ws_before(t, k - 1);
    }
}

/// Where a row of at most `cols` characters ends: just after the last whitespace
/// character among the first `cols`, or after `cols` characters when there is none.
pub open spec fn break_at(t: Seq<char>, cols: int) -> int {
    let w = last_ws_before(t, cols);
    if w >= 0 {
        w + 1
    } else {
        cols
    }
}

/// `s` without its leading spaces (`' '` only).
pub open spec fn trim_spaces(s: Seq<char>) -> Seq<char>
    decreases s.len(),
{
    if s.len() > 0 && s[0] == ' ' {
        trim_spaces(s.drop_first())
    } else {
        s
    }
}

pub proof fn lemma_trim_spaces_len(s: Seq<char>)
    ensures
        trim_spaces(s).len() <= s.len(),
    decreases s.len(),
{
    if s.len() > 0 && s[0] == ' ' {
        lemma_trim_spaces_len(s.drop_first());
    }
}

/// The rows of `t` wrapped to `cols > 0` columns: a text that fits is one row;
/// otherwise the first row ends at `break_at`, the spaces after it are dropped and
/// the rest is wrapped again (nothing more when only spaces were left).
pub open spec fn wrap_rows(t: Seq<char>, cols: int) -> Seq<Seq<char>>
    decreases t.len(),
{
    if cols <= 0 || t.len() <= cols {
        seq![t]
    } else {
        proof {
            lemma_last_ws_before(t, cols);
            lemma_trim_spaces_len(t.skip(break_at(t, cols)));
        }
        let brk = break_at(t, cols);
        let rest = trim_spaces(t.skip(brk));
        if rest.len() == 0 {
            seq![t.take(brk)]
        } else {
            seq![t.take(brk)] + wrap_rows(rest, cols)
        }
    }
}

/// The rows that the text `t` takes on a view `cols` columns wide (the whole text
/// when `cols` is 0).
pub open spec fn spec_wrap(t: Seq<char>, cols: int) -> Seq<Seq<char>> {
    if cols == 0 {
        seq![t]
    } else {
        wrap_rows(t, cols)
    }
}

impl TerminalView {
    /// Wraps `text` into rows of at most `cols` characters, breaking after the last
    /// whitespace that fits where there is one and dropping the spaces that start
    /// the next row.
    pub fn wrap(text: &str, cols: usize) -> (rows: Vec<String>)
        ensures
            strings_view(rows@) == spec_wrap(text@, cols as int),
    {
        let v = chars_of(text);
        let len = v.len();
        let mut lines: Vec<String> = Vec::new();
        if cols == 0 {
            lines.push(string_of_range(&v, 0, len));
            assert(v@.subrange(0, len as int) =~= text@);
            assert(strings_view(lines@) =~= spec_wrap(text@, cols as int));
            return lines;
        }
        let mut pos: usize = 0;
        assert(v@.skip(0) =~= v@);
        loop
            invariant
                len == v@.len(),
                v@ == text@,
                cols > 0,
                pos <= len,
                pos == 0 || pos < len,
                spec_wrap(text@, cols as int) == strings_view(lines@) + wrap_rows(
                    v@.skip(pos as int),
                    cols as int,
                ),
            decreases len - pos,
        {
            let ghost t = v@.skip(pos as int);
            let ghost before = strings_view(lines@);
            if len - pos <= cols {
                let row = string_of_range(&v, pos, len);
                lines.push(row);
                assert(v@.subrange(pos as int, len as int) =~= t);
                assert(strings_view(lines@) =~= before + wrap_rows(t, cols as int));
                return lines;
            }
            let mut brk = cols;
            let mut i = cols;
            while i > 0
                invariant_except_break
                    last_ws_before(t, cols as int) == last_ws_before(t, i as int),
                    brk == cols,
                invariant
                    0 <= i <= cols,
                    pos + cols < len,
                    len == v@.len(),
                    t == v@.skip(pos as int),
                ensures
                    brk == break_at(t, cols as int),
                decreases i,
            {
                i -= 1;
                assert(t[i as int] == v@[pos + i]);
                if is_whitespace(v[pos + i]) {
                    brk = i + 1;
                    break;
                }
            }
            proof {
                lemma_last_ws_before(t, cols as int);
            }
            assert(brk == break_at(t, cols as int));
            let row = string_of_range(&v, pos, pos + brk);
            lines.push(row);
            assert(v@.subrange(pos as int, pos + brk) =~= t.take(brk as int));
            let mut p2 = pos + brk;
            assert(v@.skip(p2 as int) =~= t.skip(brk as int));
            while p2 < len && v[p2] == ' '
                invariant
                    pos + brk <= p2 <= len,
                    len == v@.len(),
                    trim_spaces(t.skip(brk as int)) == trim_spaces(v@.skip(p2 as int)),
                decreases len - p2,
            {
                assert(v@.skip(p2 as int).drop_first() =~= v@.skip(p2 + 1));
                p2 += 1;
            }
            proof {
                if p2 < len {
                    assert(v@.skip(p2 as int)[0] == v@[p2 as int]);
                } else {
                    assert(v@.skip(p2 as int).len() == 0);
                }
            }
            let ghost rest = trim_spaces(t.skip(brk as int));
            assert(rest == v@.skip(p2 as int));
            if p2 >= len {
                assert(strings_view(lines@) =~= before + wrap_rows(t, cols as int));
                return lines;
            }
            assert(strings_view(lines@) + wrap_rows(rest, cols as int) =~= before + wrap_rows(
                t,
                cols as int,
            ));
            pos = p2;
        }
    }
}

} // verus!

verus! {

/// `s` with every space (`' '`) removed.
pub open spec fn drop_spaces(s: Seq<char>) -> Seq<char>
    decreases s.len(),
{
    if s.len() == 0 {
        Seq::empty()
    } else if s[0] == ' ' {
        drop_spaces(s.drop_first())
    } else {
        seq![s[0]] + drop_spaces(s.drop_first())
    }
}

/// The rows put back together, one after the other.
pub open spec fn join_rows(rows: Seq<Seq<char>>) -> Seq<char>
    decreases rows.len(),
{
    if rows.len() == 0 {
        Seq::empty()
    } else {
        rows[0] + join_rows(rows.drop_first())
    }
}

proof fn lemma_drop_spaces_concat(a: Seq<char>, b: Seq<char>)
    ensures
        drop_spaces(a + b) == drop_spaces(a) + drop_spaces(b),
    decreases a.len(),
{
    if a.len() == 0 {
        assert(a + b =~= b);
        assert(drop_spaces(a) + drop_spaces(b) =~= drop_spaces(b));
    } else {
        assert((a + b).drop_first() =~= a.drop_first() + b);
        assert((a + b)[0] == a[0]);
        lemma_drop_spaces_concat(a.drop_first(), b);
        if a[0] != ' ' {
            assert(seq![a[0]] + (drop_spaces(a.drop_first()) + drop_spaces(b)) =~= (seq![a[0]]
                + drop_spaces(a.drop_first())) + drop_spaces(b));
        }
    }
}

proof fn lemma_drop_spaces_trim(s: Seq<char>)
    ensures
        drop_spaces(trim_spaces(s)) == drop_spaces(s),
    decreases s.len(),
{
    if s.len() > 0 && s[0] == ' ' {
        lemma_drop_spaces_trim(s.drop_first());
    }
}

proof fn lemma_wrap_rows(t: Seq<char>, cols: int)
    requires
        cols > 0,
    ensures
        wrap_rows(t, cols).len() > 0,
        forall|k: int|
            0 <= k < wrap_rows(t, cols).len() ==> (#[trigger] wrap_rows(t, cols)[k]).len() <= cols,
        t.len() > 0 ==> forall|k: int|
            0 <= k < wrap_rows(t, cols).len() ==> (#[trigger] wrap_rows(t, cols)[k]).len() > 0,
        drop_spaces(join_rows(wrap_rows(t, cols))) == drop_spaces(t),
    decreases t.len(),
{
    let rows = wrap_rows(t, cols);
    if t.len() <= cols {
        assert(rows.drop_first() =~= Seq::<Seq<char>>::empty());
        reveal_with_fuel(join_rows, 2);
        assert(join_rows(rows) =~= t);
    } else {
        lemma_last_ws_before(t, cols);
        lemma_trim_spaces_len(t.skip(break_at(t, cols)));
        let brk = break_at(t, cols);
        let row = t.take(brk);
        let rest = trim_spaces(t.skip(brk));
        assert(t =~= row + t.skip(brk));
        lemma_drop_spaces_concat(row, t.skip(brk));
        lemma_drop_spaces_trim(t.skip(brk));
        if rest.len() == 0 {
            assert(rows.drop_first() =~= Seq::<Seq<char>>::empty());
            reveal_with_fuel(join_rows, 2);
            assert(join_rows(rows) =~= row);
            assert(drop_spaces(rest) =~= Seq::<char>::empty());
            assert(drop_spaces(row) + drop_spaces(rest) =~= drop_spaces(row));
        } else {
            lemma_wrap_rows(rest, cols);
            let tail = wrap_rows(rest, cols);
            assert(rows == seq![row] + tail);
            assert(rows.drop_first() =~= tail);
            assert(join_rows(rows) == row + join_rows(tail));
            lemma_drop_spaces_concat(row, join_rows(tail));
            assert forall|k: int| 0 <= k < rows.len() implies (#[trigger] rows[k]).len() <= cols
                && rows[k].len() > 0 by {
                if k > 0 {
                    assert(rows[k] == tail[k - 1]);
                }
            }
        }
    }
}

/// Wrapping never yields an empty list of rows, no row is wider than the view, no
/// row is empty unless the text is, and wrapping loses no character but the spaces
/// at the row breaks: the rows put together, spaces aside, are the text.
pub proof fn lemma_wrap_keeps_text(t: Seq<char>, cols: int)
    requires
        cols >= 0,
    ensures
        spec_wrap(t, cols).len() > 0,
        cols > 0 ==> forall|k: int|
            0 <= k < spec_wrap(t, cols).len() ==> (#[trigger] spec_wrap(t, cols)[k]).len() <= cols,
        t.len() > 0 ==> forall|k: int|
            0 <= k < spec_wrap(t, cols).len() ==> (#[trigger] spec_wrap(t, cols)[k]).len() > 0,
        drop_spaces(join_rows(spec_wrap(t, cols))) == drop_spaces(t),
{
    if cols == 0 {
        let rows = spec_wrap(t, cols);
        assert(rows.drop_first() =~= Seq::<Seq<char>>::empty());
        reveal_with_fuel(join_rows, 2);
        assert(join_rows(rows) =~= t);
    } else {
        lemma_wrap_rows(t, cols);
    }
}

} // verus!

verus! {

/// The length of the longest common prefix of `a` and `b`.
pub fn common_prefix_len(a: &Vec<char>, b: &Vec<char>) -> (k: usize)
    ensures
        k <= a.len(),
        k <= b.len(),
        a@.take(k as int) == b@.take(k as int),
        k == a.len() || k == b.len() || a@[k as int] != b@[k as int],
{
    let mut k: usize = 0;
    while k < a.len() && k < b.len() && a[k] == b[k]
        invariant
            k <= a.len(),
            k <= b.len(),
            forall|j: int| 0 <= j < k ==> a@[j] == b@[j],
        decreases a.len() - k,
    {
        k += 1;
    }
    assert(a@.take(k as int) =~= b@.take(k as int));
    k
}

/// A sequence `p` that starts both `a` and `b` is no longer than where they first differ.
proof fn lemma_common_prefix_bound(a: Seq<char>, b: Seq<char>, k: int, p: Seq<char>)
    requires
        0 <= k <= a.len(),
        k <= b.len(),
        k == a.len() || k == b.len() || a[k] != b[k],
        p.is_prefix_of(a),
        p.is_prefix_of(b),
    ensures
        p.len() <= k,
{
    if p.len() > k {
        assert(p[k] == a[k]);
        assert(p[k] == b[k]);
    }
}

/// `p` is a prefix of every sequence of `items`.
pub open spec fn is_common_prefix(p: Seq<char>, items: Seq<Seq<char>>) -> bool {
    forall|i: int| 0 <= i < items.len() ==> p.is_prefix_of(#[trigger] items[i])
}

impl TerminalView {
    /// The characters of `s` once CSI escape sequences and carriage returns are removed.
    pub fn strip_ansi(s: &str) -> (out: String)
        ensures
            out@ == spec_strip_ansi(s@),
    {
        let v = chars_of(s);
        strip_ansi_chars(&v)
    }

    /// The working directory as shown above the prompt: `~` in place of the home
    /// directory when the path starts with it (and home is known).
    pub fn display_cwd(cwd: &str, home: &str) -> (r: String)
        ensures
            r@ == spec_display_cwd(cwd@, home@),
    {
        let c = chars_of(cwd);
        let h = chars_of(home);
        if h.len() > 0 && h.len() <= c.len() {
            let k = common_prefix_len(&h, &c);
            if k == h.len() {
                assert(h@.take(k as int) =~= h@);
                assert(h@.is_prefix_of(c@));
                let mut r = String::new();
                push_char(&mut r, '~');
                let rest = string_of_range(&c, h.len(), c.len());
                append_str(&mut r, rest.as_str());
                assert(c@.subrange(h.len() as int, c.len() as int) =~= c@.skip(h@.len() as int));
                return r;
            }
            assert(!h@.is_prefix_of(c@)) by {
                if h@.is_prefix_of(c@) {
                    assert(h@[k as int] == c@[k as int]);
                }
            }
        }
        string_of_range(&c, 0, c.len())
    }

    /// The longest common prefix of `items` (empty when there are none).
    pub fn longest_common_prefix(items: &[String]) -> (r: String)
        ensures
            items@.len() == 0 ==> r@.len() == 0,
            is_common_prefix(r@, strings_view(items@)),
            items@.len() > 0 ==> forall|p: Seq<char>|
                #[trigger] is_common_prefix(p, strings_view(items@)) ==> p.len() <= r@.len(),
            r@ == spec_lcp(strings_view(items@)),
    {
        if items.len() == 0 {
            let e = String::new();
            assert(strings_view(items@).len() == 0);
            return e;
        }
        let first = chars_of(items[0].as_str());
        let mut len = first.len();
        let mut i: usize = 1;
        let ghost views = strings_view(items@);
        while i < items.len()
            invariant
                1 <= i <= items@.len(),
                views == strings_view(items@),
                first@ == views[0],
                len <= first.len(),
                forall|j: int| 0 <= j < i ==> first@.take(len as int).is_prefix_of(#[trigger] views[j]),
                len == first.len() || exists|j: int| 0 < j < i && (#[trigger] views[j]).len() >= len
                    && (len == views[j].len() || first@[len as int] != views[j][len as int]),
            decreases items@.len() - i,
        {
            let item = chars_of(items[i].as_str());
            let c = common_prefix_len(&first, &item);
            assert(item@ == views[i as int]);
            let ghost old_len = len;
            if c < len {
                len = c;
            }
            proof {
                assert forall|j: int| 0 <= j < i + 1 implies first@.take(len as int).is_prefix_of(
                    #[trigger] views[j],
                ) by {
                    if j < i {
                        assert(first@.take(old_len as int).is_prefix_of(views[j]));
                        assert forall|m: int| 0 <= m < len implies first@.take(len as int)[m]
                            == views[j][m] by {
                            assert(first@.take(old_len as int)[m] == views[j][m]);
                        }
                    } else {
                        assert forall|m: int| 0 <= m < len implies first@.take(len as int)[m]
                            == views[j][m] by {
                            assert(first@.take(c as int)[m] == item@.take(c as int)[m]);
                        }
                    }
                }
                if len == c && c < old_len {
                    assert(c == first.len() || c == item.len() || first@[c as int] != item@[c as int]);
                    assert(views[i as int].len() >= len);
                }
            }
            i += 1;
        }
        let r = string_of_range(&first, 0, len);
        proof {
            assert(views.len() > 0);
            assert(r@ =~= first@.take(len as int));
            assert forall|p: Seq<char>|
                #[trigger] is_common_prefix(p, views) implies p.len() <= r@.len() by {
                assert(p.is_prefix_of(views[0]));
                if len < first.len() {
                    let j = choose|j: int| 0 < j < items@.len() && (#[trigger] views[j]).len() >= len
                        && (len == views[j].len() || first@[len as int] != views[j][len as int]);
                    assert(p.is_prefix_of(views[j]));
                    lemma_common_prefix_bound(first@, views[j], len as int, p);
                }
            }
            lemma_lcp_unique(views, r@);
        }
        r
    }
}

/// The longest common prefix of `items` (empty when there are none).
pub open spec fn spec_lcp(items: Seq<Seq<char>>) -> Seq<char> {
    if items.len() == 0 {
        Seq::empty()
    } else {
        choose|p: Seq<char>|
            is_common_prefix(p, items) && forall|q: Seq<char>|
                #[trigger] is_common_prefix(q, items) ==> q.len() <= p.len()
    }
}

/// A common prefix at least as long as every other is the longest common prefix.
pub proof fn lemma_lcp_unique(items: Seq<Seq<char>>, r: Seq<char>)
    requires
        items.len() > 0,
        is_common_prefix(r, items),
        forall|q: Seq<char>| #[trigger] is_common_prefix(q, items) ==> q.len() <= r.len(),
    ensures
        spec_lcp(items) == r,
{
    let p = spec_lcp(items);
    assert(is_common_prefix(p, items) && forall|q: Seq<char>|
        #[trigger] is_common_prefix(q, items) ==> q.len() <= p.len());
    assert(p.len() == r.len());
    assert(p.is_prefix_of(items[0]) && r.is_prefix_of(items[0]));
    assert(p =~= r);
}

/// The working directory with a leading home directory shown as `~`.
pub open spec fn spec_display_cwd(cwd: Seq<char>, home: Seq<char>) -> Seq<char> {
    if home.len() > 0 && home.is_prefix_of(cwd) {
        seq!['~'] + cwd.skip(home.len() as int)
    } else {
        cwd
    }
}

} // verus!

verus! {

/// What a scrollback line wraps as: its visible characters, or a single space
/// when they are all whitespace.
pub open spec fn row_source(text: Seq<char>) -> Seq<char> {
    let plain = spec_strip_ansi(text);
    if crate::text::spec_trim(plain).len() == 0 {
        seq![' ']
    } else {
        plain
    }
}

/// The number of view rows a line takes at `cols` columns (at least one).
pub open spec fn spec_row_count(text: Seq<char>, cols: int) -> nat {
    let n = spec_wrap(row_source(text), cols).len();
    if n > 1 {
        n
    } else {
        1
    }
}

/// One `(line, row)` entry for each view row of the lines `lines[0..n]`, in order.
pub open spec fn row_map_upto(lines: Seq<Seq<char>>, cols: int, n: int) -> Seq<(int, int)>
    decreases n,
{
    if n <= 0 {
        Seq::empty()
    } else {
        row_map_upto(lines, cols, n - 1) + Seq::new(
            spec_row_count(lines[n - 1], cols),
            |r: int| (n - 1, r),
        )
    }
}

/// Index pairs as integers.
pub open spec fn pairs_view(v: Seq<(usize, usize)>) -> Seq<(int, int)> {
    v.map_values(|e: (usize, usize)| (e.0 as int, e.1 as int))
}

/// The texts of some lines.
pub open spec fn line_texts(lines: Seq<crate::line::Line>) -> Seq<Seq<char>> {
    lines.map_values(|l: crate::line::Line| l.text@)
}

/// The total number of view rows of `lines[0..n]`.
pub open spec fn rows_total(lines: Seq<Seq<char>>, cols: int, n: int) -> int
    decreases n,
{
    if n <= 0 {
        0
    } else {
        rows_total(lines, cols, n - 1) + spec_row_count(lines[n - 1], cols)
    }
}

impl TerminalView {
    /// The text a line wraps as (see `row_source`).
    pub fn row_source(text: &str) -> (r: String)
        ensures
            r@ == row_source(text@),
    {
        let plain = Self::strip_ansi(text);
        let t = crate::text::trim(plain.as_str());
        if t.as_str().is_empty() {
            let mut s = String::new();
            push_char(&mut s, ' ');
            assert(s@ =~= seq![' ']);
            s
        } else {
            plain
        }
    }

    /// The number of view rows a line takes at `cols` columns.
    pub fn row_count(line: &crate::line::Line, cols: usize) -> (n: usize)
        ensures
            n == spec_row_count(line.text@, cols as int),
    {
        let src = Self::row_source(line.text.as_str());
        let rows = Self::wrap(src.as_str(), cols);
        assert(rows@.len() == strings_view(rows@).len());
        let n = rows.len();
        if n > 1 {
            n
        } else {
            1
        }
    }

    /// One `(line index, row within the line)` entry for each view row the
    /// scrollback lines take at `cols` columns.
    pub fn build_row_map(lines: &[crate::line::Line], cols: usize) -> (m: Vec<(usize, usize)>)
        ensures
            pairs_view(m@) == row_map_upto(line_texts(lines@), cols as int, lines@.len() as int),
    {
        let ghost texts = line_texts(lines@);
        let mut entries: Vec<(usize, usize)> = Vec::new();
        let mut i: usize = 0;
        while i < lines.len()
            invariant
                i <= lines@.len(),
                texts == line_texts(lines@),
                pairs_view(entries@) == row_map_upto(texts, cols as int, i as int),
            decreases lines@.len() - i,
        {
            let c = Self::row_count(&lines[i], cols);
            assert(texts[i as int] == lines@[i as int].text@);
            let ghost before = pairs_view(entries@);
            let mut r: usize = 0;
            while r < c
                invariant
                    r <= c,
                    c == spec_row_count(texts[i as int], cols as int),
                    pairs_view(entries@) == before + Seq::new(r as nat, |k: int| (i as int, k)),
                decreases c - r,
            {
                let ghost pv = pairs_view(entries@);
                entries.push((i, r));
                assert(pairs_view(entries@) =~= pv.push((i as int, r as int)));
                r += 1;
                assert(pairs_view(entries@) =~= before + Seq::new(r as nat, |k: int| (i as int, k)));
            }
            assert(row_map_upto(texts, cols as int, i + 1) =~= before + Seq::new(
                c as nat,
                |k: int| (i as int, k),
            ));
            i += 1;
        }
        entries
    }
}

proof fn lemma_row_map(lines: Seq<Seq<char>>, cols: int, n: int)
    requires
        0 <= n <= lines.len(),
    ensures
        row_map_upto(lines, cols, n).len() == rows_total(lines, cols, n),
        forall|k: int|
            0 <= k < row_map_upto(lines, cols, n).len() ==> {
                let e = #[trigger] row_map_upto(lines, cols, n)[k];
                0 <= e.0 < n && 0 <= e.1 < spec_row_count(lines[e.0], cols)
            },
    decreases n,
{
    if n > 0 {
        lemma_row_map(lines, cols, n - 1);
        let prev = row_map_upto(lines, cols, n - 1);
        let m = row_map_upto(lines, cols, n);
        assert forall|k: int| 0 <= k < m.len() implies {
            let e = #[trigger] m[k];
            0 <= e.0 < n && 0 <= e.1 < spec_row_count(lines[e.0], cols)
        } by {
            if k >= prev.len() {
                assert(m[k] == (n - 1, k - prev.len()));
            } else {
                assert(m[k] == prev[k]);
            }
        }
    }
}

/// Every line takes at least one row, and the row map has exactly one entry per
/// row of each line, each naming an existing line and one of its rows.
pub proof fn lemma_row_map_covers(lines: Seq<Seq<char>>, cols: int)
    requires
        cols >= 0,
    ensures
        forall|i: int| 0 <= i < lines.len() ==> #[trigger] spec_row_count(lines[i], cols) >= 1,
        row_map_upto(lines, cols, lines.len() as int).len() == rows_total(
            lines,
            cols,
            lines.len() as int,
        ),
        forall|k: int|
            0 <= k < row_map_upto(lines, cols, lines.len() as int).len() ==> {
                let e = #[trigger] row_map_upto(lines, cols, lines.len() as int)[k];
                0 <= e.0 < lines.len() && 0 <= e.1 < spec_row_count(lines[e.0], cols)
            },
{
    lemma_row_map(lines, cols, lines.len() as int);
}

} // verus!
