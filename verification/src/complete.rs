//! Completing the last word of the input from a directory listing.
use vstd::prelude::*;
use vstd::multiset::Multiset;
use vstd::utf8::{encode_utf8, decode_utf8, is_char_boundary};
use vstd::string::StringSliceAdditionalSpecFns;
use crate::text::{chars_of, string_of, string_of_range, push_char, append_str, spec_is_whitespace, is_whitespace};
use crate::state::{State, TermModel};
use crate::text::lemma_encode_concat;
use crate::line::{Line, LineKind, plain_line};
use crate::view::{TerminalView, spec_lcp, strings_view};

verus! {

/// Orders character sequences lexicographically (as `str` and `String` compare).
pub open spec fn lex_le(a: Seq<char>, b: Seq<char>) -> bool
    decreases a.len(),
{
    if a.len() == 0 {
        true
    } else if b.len() == 0 {
        false
    } else if a[0] != b[0] {
        a[0] < b[0]
    } else {
        lex_le(a.drop_first(), b.drop_first())
    }
}

pub proof fn lemma_lex_total(a: Seq<char>, b: Seq<char>)
    ensures
        lex_le(a, b) || lex_le(b, a),
    decreases a.len(),
{
    if a.len() > 0 && b.len() > 0 && a[0] == b[0] {
        lemma_lex_total(a.drop_first(), b.drop_first());
    }
}

pub proof fn lemma_lex_trans(a: Seq<char>, b: Seq<char>, c: Seq<char>)
    requires
        lex_le(a, b),
        lex_le(b, c),
    ensures
        lex_le(a, c),
    decreases a.len(),
{
    if a.len() > 0 && b.len() > 0 && c.len() > 0 && a[0] == b[0] && b[0] == c[0] {
        lemma_lex_trans(a.drop_first(), b.drop_first(), c.drop_first());
    }
}

pub proof fn lemma_lex_antisym(a: Seq<char>, b: Seq<char>)
    requires
        lex_le(a, b),
        lex_le(b, a),
    ensures
        a == b,
    decreases a.len(),
{
    if a.len() == 0 {
        assert(b.len() == 0);
        assert(a =~= b);
    } else {
        lemma_lex_antisym(a.drop_first(), b.drop_first());
        assert(a =~= seq![a[0]] + a.drop_first());
        assert(b =~= seq![b[0]] + b.drop_first());
    }
}

/// `s` is in ascending order.
pub open spec fn sorted(s: Seq<Seq<char>>) -> bool {
    forall|i: int, j: int| 0 <= i < j < s.len() ==> lex_le(#[trigger] s[i], #[trigger] s[j])
}

/// `x` inserted into `s` after the elements not greater than it.
pub open spec fn insert_sorted(s: Seq<Seq<char>>, x: Seq<char>) -> Seq<Seq<char>>
    decreases s.len(),
{
    if s.len() == 0 {
        seq![x]
    } else if lex_le(s.last(), x) {
        s.push(x)
    } else {
        insert_sorted(s.drop_last(), x).push(s.last())
    }
}

/// `s` in ascending order, element by element from the front.
pub open spec fn sort_seq(s: Seq<Seq<char>>) -> Seq<Seq<char>>
    decreases s.len(),
{
    if s.len() == 0 {
        s
    } else {
        insert_sorted(sort_seq(s.drop_last()), s.last())
    }
}

proof fn lemma_insert_sorted(s: Seq<Seq<char>>, x: Seq<char>)
    requires
        sorted(s),
    ensures
        sorted(insert_sorted(s, x)),
        insert_sorted(s, x).to_multiset() == s.to_multiset().insert(x),
        insert_sorted(s, x).len() == s.len() + 1,
        forall|y: Seq<char>| #[trigger] insert_sorted(s, x).contains(y) ==> y == x || s.contains(y),
    decreases s.len(),
{
    broadcast use vstd::seq_lib::group_seq_properties;
    if s.len() == 0 {
        assert(seq![x] =~= Seq::<Seq<char>>::empty().push(x));
    } else if lex_le(s.last(), x) {
        let r = s.push(x);
        assert forall|i: int, j: int| 0 <= i < j < r.len() implies lex_le(#[trigger] r[i], #[trigger] r[j]) by {
            if j == s.len() {
                if i < s.len() - 1 {
                    assert(lex_le(s[i], s[s.len() - 1]));
                    lemma_lex_trans(s[i], s.last(), x);
                }
            }
        }
    } else {
        let d = s.drop_last();
        assert(sorted(d)) by {
            assert forall|i: int, j: int| 0 <= i < j < d.len() implies lex_le(#[trigger] d[i], #[trigger] d[j]) by {
                assert(d[i] == s[i] && d[j] == s[j]);
            }
        }
        lemma_insert_sorted(d, x);
        let t = insert_sorted(d, x);
        let r = t.push(s.last());
        lemma_lex_total(s.last(), x);
        assert(s =~= d.push(s.last()));
        assert forall|i: int, j: int| 0 <= i < j < r.len() implies lex_le(#[trigger] r[i], #[trigger] r[j]) by {
            if j == t.len() {
                let y = t[i];
                assert(t.contains(y));
                if y == x {
                } else {
                    let k = choose|k: int| 0 <= k < d.len() && d[k] == y;
                    assert(lex_le(s[k], s[s.len() - 1]));
                }
            }
        }
    }
}

proof fn lemma_sort_seq(s: Seq<Seq<char>>)
    ensures
        sorted(sort_seq(s)),
        sort_seq(s).to_multiset() == s.to_multiset(),
        sort_seq(s).len() == s.len(),
    decreases s.len(),
{
    broadcast use vstd::seq_lib::group_seq_properties;
    if s.len() > 0 {
        lemma_sort_seq(s.drop_last());
        lemma_insert_sorted(sort_seq(s.drop_last()), s.last());
        assert(s =~= s.drop_last().push(s.last()));
    }
}

/// Sorting yields the same entries in ascending order.
pub proof fn lemma_sort_sorts(s: Seq<Seq<char>>)
    ensures
        sorted(sort_seq(s)),
        sort_seq(s).to_multiset() == s.to_multiset(),
{
    lemma_sort_seq(s);
}

/// Whether `a <= b` in lexicographic order.
pub fn chars_le(a: &Vec<char>, b: &Vec<char>) -> (r: bool)
    ensures
        r == lex_le(a@, b@),
{
    let mut i: usize = 0;
    assert(a@.skip(0) =~= a@);
    assert(b@.skip(0) =~= b@);
    while i < a.len() && i < b.len() && a[i] == b[i]
        invariant
            i <= a.len(),
            i <= b.len(),
            lex_le(a@, b@) == lex_le(a@.skip(i as int), b@.skip(i as int)),
        decreases a.len() - i,
    {
        assert(a@.skip(i as int).drop_first() =~= a@.skip(i + 1));
        assert(b@.skip(i as int).drop_first() =~= b@.skip(i + 1));
        i += 1;
    }
    if i == a.len() {
        true
    } else if i == b.len() {
        false
    } else {
        assert(a@.skip(i as int)[0] == a@[i as int]);
        assert(b@.skip(i as int)[0] == b@[i as int]);
        a[i] < b[i]
    }
}

proof fn lemma_insert_at(s: Seq<Seq<char>>, x: Seq<char>, p: int)
    requires
        0 <= p <= s.len(),
        forall|j: int| p <= j < s.len() ==> !lex_le(#[trigger] s[j], x),
        p == 0 || lex_le(s[p - 1], x),
    ensures
        insert_sorted(s, x) == s.insert(p, x),
    decreases s.len(),
{
    if s.len() == 0 {
        assert(s.insert(p, x) =~= seq![x]);
    } else if p == s.len() {
        assert(s.insert(p, x) =~= s.push(x));
    } else {
        let d = s.drop_last();
        assert(!lex_le(s[s.len() - 1], x));
        assert forall|j: int| p <= j < d.len() implies !lex_le(#[trigger] d[j], x) by {
            assert(d[j] == s[j]);
        }
        if p > 0 {
            assert(d[p - 1] == s[p - 1]);
        }
        lemma_insert_at(d, x, p);
        assert(d.insert(p, x).push(s.last()) =~= s.insert(p, x));
    }
}

/// The views of a sequence of character vectors.
pub open spec fn vv(v: Seq<Vec<char>>) -> Seq<Seq<char>> {
    v.map_values(|x: Vec<char>| x@)
}

/// `v` in ascending lexicographic order.
pub fn sort_chars(v: Vec<Vec<char>>) -> (r: Vec<Vec<char>>)
    ensures
        vv(r@) == sort_seq(vv(v@)),
{
    let mut out: Vec<Vec<char>> = Vec::new();
    let ghost dv = vv(v@);
    let n = v.len();
    let mut i: usize = 0;
    while i < n
        invariant
            i <= n,
            n == v.len(),
            dv == vv(v@),
            vv(out@) == sort_seq(dv.take(i as int)),
            sorted(vv(out@)),
        decreases n - i,
    {
        let x = v[i].clone();
        assert(x@ == dv[i as int]);
        proof {
            assert(dv.take(i + 1).drop_last() =~= dv.take(i as int));
            lemma_sort_seq(dv.take(i as int));
        }
        let mut p = out.len();
        while p > 0
            invariant
                p <= out.len(),
                forall|j: int| p <= j < out.len() ==> !lex_le(#[trigger] vv(out@)[j], x@),
            ensures
                p <= out.len(),
                forall|j: int| p <= j < out.len() ==> !lex_le(#[trigger] vv(out@)[j], x@),
                p == 0 || lex_le(vv(out@)[p - 1], x@),
            decreases p,
        {
            let le = chars_le(&out[p - 1], &x);
            assert(out[p - 1]@ == vv(out@)[p - 1]);
            if le {
                break;
            }
            p -= 1;
        }
        proof {
            lemma_insert_at(vv(out@), x@, p as int);
            lemma_insert_sorted(vv(out@), x@);
        }
        let ghost before = vv(out@);
        out.insert(p, x);
        assert(vv(out@) =~= before.insert(p as int, x@));
        i += 1;
    }
    assert(dv.take(n as int) =~= dv);
    out
}

/// The items joined with `sep` between each two.
pub open spec fn join_with(items: Seq<Seq<char>>, sep: Seq<char>) -> Seq<char>
    decreases items.len(),
{
    if items.len() == 0 {
        Seq::empty()
    } else if items.len() == 1 {
        items[0]
    } else {
        join_with(items.drop_last(), sep) + sep + items.last()
    }
}

/// The strings joined with `sep` between each two.
pub fn join(items: &Vec<String>, sep: &str) -> (r: String)
    ensures
        r@ == join_with(strings_view(items@), sep@),
{
    let mut r = String::new();
    let ghost dv = strings_view(items@);
    let mut i: usize = 0;
    while i < items.len()
        invariant
            i <= items.len(),
            dv == strings_view(items@),
            r@ == join_with(dv.take(i as int), sep@),
        decreases items.len() - i,
    {
        assert(dv.take(i + 1).drop_last() =~= dv.take(i as int));
        assert(items[i as int]@ == dv[i as int]);
        if i > 0 {
            append_str(&mut r, sep);
        } else {
            assert(r@ =~= Seq::<char>::empty());
        }
        append_str(&mut r, items[i].as_str());
        i += 1;
        proof {
            if i == 1 {
                assert(r@ =~= dv.take(1)[0]);
            }
        }
    }
    assert(dv.take(items.len() as int) =~= dv);
    r
}

} // verus!

verus! {

/// The characters since the last whitespace at the end of `s` (none when `s`
/// ends in whitespace).
pub open spec fn last_run(s: Seq<char>) -> Seq<char>
    decreases s.len(),
{
    if s.len() > 0 && !spec_is_whitespace(s.last()) {
        last_run(s.drop_last()).push(s.last())
    } else {
        Seq::empty()
    }
}

/// The last whitespace-separated word of `s`, or nothing when it has none.
pub open spec fn last_word(s: Seq<char>) -> Seq<char> {
    last_run(crate::text::trim_end_ws(s))
}

/// The byte position at which the completed word is cut: the input's byte
/// length less the last word's byte length.
pub open spec fn word_cut(input: Seq<char>) -> int {
    encode_utf8(input).len() - encode_utf8(last_word(input)).len()
}

/// Completion of `input` is possible without a panic: the cut falls on a character boundary.
pub open spec fn tab_query_ok(input: Seq<char>) -> bool {
    is_char_boundary(encode_utf8(input), word_cut(input))
}

/// The input kept before the completed word: its bytes up to the cut.
pub open spec fn tab_prefix(input: Seq<char>) -> Seq<char> {
    decode_utf8(encode_utf8(input).subrange(0, word_cut(input)))
}

/// The index of the last `/` in `w`, or -1.
pub open spec fn last_slash(w: Seq<char>) -> int
    decreases w.len(),
{
    if w.len() == 0 {
        -1
    } else if w.last() == '/' {
        w.len() - 1
    } else {
        last_slash(w.drop_last())
    }
}

/// What a completion asks for: the input kept before the word, the directory part
/// of the word (with its `/`), the directory to list, and the partial name.
pub struct TabQuery {
    pub prefix: String,
    pub dir_prefix: String,
    pub scan_dir: String,
    pub partial: String,
}

/// A completion request as values.
pub struct TabQueryModel {
    pub prefix: Seq<char>,
    pub dir_prefix: Seq<char>,
    pub scan_dir: Seq<char>,
    pub partial: Seq<char>,
}

impl View for TabQuery {
    type V = TabQueryModel;

    open spec fn view(&self) -> TabQueryModel {
        TabQueryModel {
            prefix: self.prefix@,
            dir_prefix: self.dir_prefix@,
            scan_dir: self.scan_dir@,
            partial: self.partial@,
        }
    }
}

/// The completion request for `input` typed in `cwd`: a word with a `/` is split
/// at its last `/`; its directory part is taken as is when absolute, under `home`
/// when it starts with `~`, and under `cwd` otherwise; a word without `/` is a
/// name in `cwd`.
pub open spec fn spec_tab_query(input: Seq<char>, cwd: Seq<char>, home: Seq<char>) -> TabQueryModel {
    let w = last_word(input);
    let slash = last_slash(w);
    if slash >= 0 {
        let dir_part = w.take(slash);
        let resolved = if dir_part.len() > 0 && dir_part[0] == '/' {
            dir_part
        } else if dir_part.len() > 0 && dir_part[0] == '~' {
            home + dir_part.skip(1)
        } else {
            cwd + seq!['/'] + dir_part
        };
        TabQueryModel {
            prefix: tab_prefix(input),
            dir_prefix: dir_part + seq!['/'],
            scan_dir: resolved,
            partial: w.skip(slash + 1),
        }
    } else {
        TabQueryModel { prefix: tab_prefix(input), dir_prefix: Seq::empty(), scan_dir: cwd, partial: w }
    }
}

proof fn lemma_last_run(v: Seq<char>, b: int, e: int)
    requires
        0 <= b <= e <= v.len(),
        forall|j: int| b <= j < e ==> !spec_is_whitespace(#[trigger] v[j]),
        b == 0 || spec_is_whitespace(v[b - 1]),
    ensures
        last_run(v.take(e)) == v.subrange(b, e),
    decreases e - b,
{
    if e == b {
        if b > 0 {
            assert(v.take(e).last() == v[b - 1]);
        }
    } else {
        assert(v.take(e).drop_last() =~= v.take(e - 1));
        assert(v.take(e).last() == v[e - 1]);
        lemma_last_run(v, b, e - 1);
        assert(v.subrange(b, e - 1).push(v[e - 1]) =~= v.subrange(b, e));
    }
}

/// The bounds `(b, e)` of the last word of `v`.
fn last_word_bounds(v: &Vec<char>) -> (r: (usize, usize))
    ensures
        r.0 <= r.1 <= v.len(),
        v@.subrange(r.0 as int, r.1 as int) == last_word(v@),
        forall|j: int| r.1 <= j < v@.len() ==> spec_is_whitespace(#[trigger] v@[j]),
{
    let mut e = v.len();
    while e > 0 && is_whitespace(v[e - 1])
        invariant
            e <= v.len(),
            forall|j: int| e <= j < v@.len() ==> spec_is_whitespace(#[trigger] v@[j]),
        decreases e,
    {
        e -= 1;
    }
    proof {
        crate::text::lemma_trim_end_take(v@, e as int);
        assert(v@.subrange(0, e as int) =~= v@.take(e as int));
    }
    let mut b = e;
    while b > 0 && !is_whitespace(v[b - 1])
        invariant
            b <= e <= v.len(),
            forall|j: int| b <= j < e ==> !spec_is_whitespace(#[trigger] v@[j]),
        decreases b,
    {
        b -= 1;
    }
    proof {
        lemma_last_run(v@, b as int, e as int);
    }
    (b, e)
}

/// The index of the last `/` of `w`, if any.
fn find_last_slash(w: &Vec<char>) -> (r: Option<usize>)
    ensures
        r matches Some(i) ==> i == last_slash(w@) && i < w.len(),
        r is None ==> last_slash(w@) == -1,
{
    let mut i = w.len();
    assert(w@.take(w@.len() as int) =~= w@);
    while i > 0
        invariant
            i <= w.len(),
            last_slash(w@) == last_slash(w@.take(i as int)),
        decreases i,
    {
        assert(w@.take(i as int).drop_last() =~= w@.take(i - 1));
        assert(w@.take(i as int).last() == w@[i - 1]);
        if w[i - 1] == '/' {
            return Some(i - 1);
        }
        i -= 1;
    }
    None
}

impl State {
    /// Whether completing the current input is possible (the word cut falls on a
    /// character boundary).
    pub fn tab_query_ok(&self) -> (ok: bool)
        ensures
            ok == tab_query_ok(self.input@),
    {
        let v = chars_of(self.input.as_str());
        let (b, e) = last_word_bounds(&v);
        let word = string_of_range(&v, b, e);
        proof {
            assert(v@ =~= v@.take(b as int) + v@.subrange(b as int, e as int) + v@.skip(e as int));
            lemma_encode_concat(v@.take(b as int) + v@.subrange(b as int, e as int), v@.skip(e as int));
            lemma_encode_concat(v@.take(b as int), v@.subrange(b as int, e as int));
        }
        let ib = self.input.as_str().as_bytes();
        let wb = word.as_str().as_bytes();
        let k = ib.len() - wb.len();
        self.input.as_str().is_char_boundary(k)
    }

    /// The completion request for the current input, typed in the terminal's
    /// working directory.
    pub fn tab_query(&self, home: &str) -> (q: TabQuery)
        requires
            tab_query_ok(self.input@),
        ensures
            q@ == spec_tab_query(self.input@, self.cwd@, home@),
    {
        let v = chars_of(self.input.as_str());
        let (b, e) = last_word_bounds(&v);
        let wv = crate::text::vec_range(&v, b, e);
        let word = string_of(&wv);
        proof {
            assert(v@ =~= v@.take(b as int) + v@.subrange(b as int, e as int) + v@.skip(e as int));
            lemma_encode_concat(v@.take(b as int) + v@.subrange(b as int, e as int), v@.skip(e as int));
            lemma_encode_concat(v@.take(b as int), v@.subrange(b as int, e as int));
        }
        let ib = self.input.as_str().as_bytes();
        let wb = word.as_str().as_bytes();
        let k = ib.len() - wb.len();
        let (pre, _rest) = self.input.as_str().split_at(k);
        proof {
            vstd::utf8::encode_utf8_decode_utf8(pre@);
        }
        let prefix = pre.to_owned();
        assert(wv@ == last_word(self.input@));
        assert(k as int == word_cut(self.input@));
        assert(prefix@ == tab_prefix(self.input@));
        match find_last_slash(&wv) {
            Some(slash) => {
                let dir_part = string_of_range(&wv, 0, slash);
                let partial = string_of_range(&wv, slash + 1, wv.len());
                assert(wv@.subrange(0, slash as int) =~= wv@.take(slash as int));
                assert(wv@.subrange(slash + 1, wv@.len() as int) =~= wv@.skip(slash + 1));
                let mut dir_prefix = dir_part.clone();
                push_char(&mut dir_prefix, '/');
                let scan_dir = if slash > 0 && wv[0] == '/' {
                    dir_part
                } else if slash > 0 && wv[0] == '~' {
                    let mut r = String::new();
                    append_str(&mut r, home);
                    let tail = string_of_range(&wv, 1, slash);
                    append_str(&mut r, tail.as_str());
                    assert(wv@.subrange(1, slash as int) =~= wv@.take(slash as int).skip(1));
                    r
                } else {
                    let mut r = String::new();
                    append_str(&mut r, self.cwd.as_str());
                    push_char(&mut r, '/');
                    append_str(&mut r, dir_part.as_str());
                    assert(r@ =~= self.cwd@ + seq!['/'] + wv@.take(slash as int));
                    r
                };
                assert(dir_prefix@ == wv@.take(slash as int) + seq!['/']);
                assert(slash > 0 ==> wv@.take(slash as int)[0] == wv@[0]);
                TabQuery { prefix, dir_prefix, scan_dir, partial }
            },
            None => {
                TabQuery {
                    prefix,
                    dir_prefix: String::new(),
                    scan_dir: self.cwd.clone(),
                    partial: word,
                }
            },
        }
    }
}

} // verus!

verus! {

/// A name found in a listed directory, and whether it is a directory itself.
pub struct DirEntryName {
    pub name: String,
    pub is_dir: bool,
}

impl View for DirEntryName {
    type V = (Seq<char>, bool);

    open spec fn view(&self) -> (Seq<char>, bool) {
        (self.name@, self.is_dir)
    }
}

/// How an entry is offered: directories get a trailing `/`.
pub open spec fn entry_label(e: (Seq<char>, bool)) -> Seq<char> {
    if e.1 {
        e.0 + seq!['/']
    } else {
        e.0
    }
}

/// The lowercase form of a text, as `str::to_lowercase` gives it.
pub uninterp spec fn spec_lowercase(s: Seq<char>) -> Seq<char>;

/// `str::to_lowercase`: the text with each character replaced by its lowercase mapping.
#[verifier::external_body]
pub(crate) fn lowercase(s: &str) -> (r: String)
    ensures
        r@ == spec_lowercase(s@),
{
    s.to_lowercase()
}

/// The labels whose lowered form starts with `lp`, in their order.
pub open spec fn matching(labels: Seq<Seq<char>>, lowered: Seq<Seq<char>>, lp: Seq<char>) -> Seq<
    Seq<char>,
>
    decreases labels.len(),
{
    if labels.len() == 0 {
        Seq::empty()
    } else {
        let r = matching(labels.drop_last(), lowered.drop_last(), lp);
        if lp.is_prefix_of(lowered.last()) {
            r.push(labels.last())
        } else {
            r
        }
    }
}

/// The completion candidates, sorted: the labels whose lowered form (given in
/// `lowered`, position by position) starts with the lowered partial name.
pub fn matching_candidates(labels: &Vec<String>, lowered: &Vec<String>, lowered_partial: &str) -> (r:
    Vec<String>)
    requires
        labels.len() == lowered.len(),
    ensures
        strings_view(r@) == sort_seq(
            matching(strings_view(labels@), strings_view(lowered@), lowered_partial@),
        ),
{
    let lp = chars_of(lowered_partial);
    let ghost ld = strings_view(labels@);
    let ghost wd = strings_view(lowered@);
    let mut kept: Vec<Vec<char>> = Vec::new();
    let mut i: usize = 0;
    while i < labels.len()
        invariant
            i <= labels.len(),
            labels.len() == lowered.len(),
            ld == strings_view(labels@),
            wd == strings_view(lowered@),
            lp@ == lowered_partial@,
            vv(kept@) == matching(ld.take(i as int), wd.take(i as int), lp@),
        decreases labels.len() - i,
    {
        let low = chars_of(lowered[i].as_str());
        let lab = chars_of(labels[i].as_str());
        let k = crate::view::common_prefix_len(&lp, &low);
        proof {
            assert(ld.take(i + 1).drop_last() =~= ld.take(i as int));
            assert(wd.take(i + 1).drop_last() =~= wd.take(i as int));
            assert(wd.take(i + 1).last() == low@);
            assert(ld.take(i + 1).last() == lab@);
        }
        let ghost before = vv(kept@);
        if k == lp.len() {
            assert(lp@.take(k as int) =~= lp@);
            assert(lp@.is_prefix_of(low@));
            kept.push(lab);
            assert(vv(kept@) =~= before.push(lab@));
        } else {
            assert(!lp@.is_prefix_of(low@)) by {
                if lp@.is_prefix_of(low@) {
                    assert(lp@[k as int] == low@[k as int]);
                }
            }
        }
        i += 1;
    }
    assert(ld.take(labels.len() as int) =~= ld);
    assert(wd.take(labels.len() as int) =~= wd);
    let sorted_chars = sort_chars(kept);
    let mut out: Vec<String> = Vec::new();
    let mut j: usize = 0;
    while j < sorted_chars.len()
        invariant
            j <= sorted_chars.len(),
            strings_view(out@) == vv(sorted_chars@).take(j as int),
        decreases sorted_chars.len() - j,
    {
        let s = string_of(&sorted_chars[j]);
        let ghost before = strings_view(out@);
        assert(s@ == vv(sorted_chars@)[j as int]);
        out.push(s);
        assert(strings_view(out@) =~= before.push(s@));
        assert(strings_view(out@) =~= vv(sorted_chars@).take(j + 1));
        j += 1;
    }
    assert(vv(sorted_chars@).take(sorted_chars.len() as int) =~= vv(sorted_chars@));
    out
}

/// The state after completing with the candidates `cands`: nothing without
/// candidates; the next candidate in turn when they are the ones offered last
/// time; the only candidate when there is one; else the candidates are listed
/// and the input is completed to their longest common prefix.
pub open spec fn complete_step(s: TermModel, q: TabQueryModel, cands: Seq<Seq<char>>) -> TermModel {
    if cands.len() == 0 {
        s
    } else {
        let base = q.prefix + q.dir_prefix;
        if s.tab_candidates == cands {
            let next = ((s.tab_index + 1) % cands.len()) as nat;
            let ni = base + cands[next as int];
            TermModel { tab_index: next, ..s.with_input(ni, ni.len()) }
        } else if cands.len() == 1 {
            let ni = base + cands[0];
            s.with_input(ni, ni.len()).tabs_cleared()
        } else {
            let ni = base + spec_lcp(cands);
            let s2 = s.pushed(plain_line(join_with(cands, seq![' ', ' ']), LineKind::Output));
            TermModel { tab_candidates: cands, tab_index: 0, ..s2.with_input(ni, ni.len()) }
        }
    }
}

/// Whether two lists of strings hold the same texts.
fn same_strings(a: &Vec<String>, b: &Vec<String>) -> (r: bool)
    ensures
        r == (strings_view(a@) == strings_view(b@)),
{
    if a.len() != b.len() {
        assert(strings_view(a@).len() != strings_view(b@).len());
        return false;
    }
    let mut i: usize = 0;
    while i < a.len()
        invariant
            i <= a.len() == b.len(),
            forall|j: int| 0 <= j < i ==> strings_view(a@)[j] == strings_view(b@)[j],
        decreases a.len() - i,
    {
        if a[i] != b[i] {
            assert(strings_view(a@)[i as int] != strings_view(b@)[i as int]);
            return false;
        }
        i += 1;
    }
    assert(strings_view(a@) =~= strings_view(b@));
    true
}

impl State {
    /// Completes the input with the given sorted candidates (see `complete_step`).
    pub fn apply_completion(&mut self, q: &TabQuery, cands: Vec<String>)
        requires
            old(self).wf(),
        ensures
            final(self).wf(),
            final(self)@ == complete_step(old(self)@, q@, strings_view(cands@)),
    {
        if cands.len() == 0 {
            return;
        }
        let mut base = q.prefix.clone();
        append_str(&mut base, q.dir_prefix.as_str());
        if same_strings(&self.tab_candidates, &cands) {
            let next = (self.tab_index + 1) % cands.len();
            let mut ni = base;
            append_str(&mut ni, cands[next].as_str());
            let n = chars_of(ni.as_str()).len();
            self.input = ni;
            self.cursor_col = n;
            self.tab_index = next;
            assert(self@.history == old(self)@.history);
            assert(self@ == complete_step(old(self)@, q@, strings_view(cands@)));
        } else if cands.len() == 1 {
            let mut ni = base;
            append_str(&mut ni, cands[0].as_str());
            let n = chars_of(ni.as_str()).len();
            self.input = ni;
            self.cursor_col = n;
            self.tab_candidates = Vec::new();
            self.tab_index = 0;
            assert(self@.tab_candidates =~= Seq::<Seq<char>>::empty());
            assert(self@.history == old(self)@.history);
            assert(self@ == complete_step(old(self)@, q@, strings_view(cands@)));
        } else {
            let lcp = TerminalView::longest_common_prefix(cands.as_slice());
            let mut ni = base;
            append_str(&mut ni, lcp.as_str());
            let n = chars_of(ni.as_str()).len();
            let sep = "  ";
            proof {
                reveal_strlit("  ");
            }
            assert(sep@ =~= seq![' ', ' ']);
            let listing = join(&cands, sep);
            assert(listing@ == join_with(strings_view(cands@), seq![' ', ' ']));
            assert(ni@ == q.prefix@ + q.dir_prefix@ + spec_lcp(strings_view(cands@)));
            self.push(Line::output(listing));
            self.input = ni;
            self.cursor_col = n;
            let ghost cv = strings_view(cands@);
            self.tab_candidates = cands;
            self.tab_index = 0;
            assert(self@.tab_candidates =~= cv);
            assert(self@.history == old(self)@.history);
            assert(self@ == complete_step(old(self)@, q@, cv));
        }
    }

    /// Completes the input from the entries of the listed directory: the entries
    /// whose lowercase label starts with the lowercase partial name, sorted.
    pub fn complete_tab(&mut self, q: &TabQuery, entries: &Vec<DirEntryName>)
        requires
            old(self).wf(),
        ensures
            final(self).wf(),
            final(self)@ == complete_step(
                old(self)@,
                q@,
                sort_seq(
                    matching(
                        entries@.map_values(|e: DirEntryName| entry_label(e@)),
                        entries@.map_values(|e: DirEntryName| spec_lowercase(entry_label(e@))),
                        spec_lowercase(q.partial@),
                    ),
                ),
            ),
    {
        let mut labels: Vec<String> = Vec::new();
        let mut lowered: Vec<String> = Vec::new();
        let mut i: usize = 0;
        while i < entries.len()
            invariant
                i <= entries.len(),
                strings_view(labels@) == entries@.take(i as int).map_values(
                    |e: DirEntryName| entry_label(e@),
                ),
                strings_view(lowered@) == entries@.take(i as int).map_values(
                    |e: DirEntryName| spec_lowercase(entry_label(e@)),
                ),
            decreases entries.len() - i,
        {
            let e = &entries[i];
            let mut label = e.name.clone();
            if e.is_dir {
                push_char(&mut label, '/');
            }
            let low = lowercase(label.as_str());
            let ghost lb = strings_view(labels@);
            let ghost lw = strings_view(lowered@);
            assert(label@ == entry_label(entries@[i as int]@));
            let ghost lv = label@;
            let ghost wv = low@;
            labels.push(label);
            lowered.push(low);
            assert(strings_view(labels@) =~= lb.push(lv));
            assert(strings_view(lowered@) =~= lw.push(wv));
            assert(entries@.take(i + 1) =~= entries@.take(i as int).push(entries@[i as int]));
            assert(strings_view(labels@) =~= entries@.take(i + 1).map_values(
                |e: DirEntryName| entry_label(e@),
            ));
            assert(strings_view(lowered@) =~= entries@.take(i + 1).map_values(
                |e: DirEntryName| spec_lowercase(entry_label(e@)),
            ));
            i += 1;
        }
        assert(entries@.take(entries.len() as int) =~= entries@);
        let lp = lowercase(q.partial.as_str());
        let cands = matching_candidates(&labels, &lowered, lp.as_str());
        self.apply_completion(q, cands);
    }
}

} // verus!
