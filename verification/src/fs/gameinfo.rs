//! Reading the search paths of a game from the text of `gameinfo.txt`, and
//! the extra game directories of `mount.cfg` and of Portal 2's DLC folders.

use vstd::prelude::*;
use vstd::string::StrSliceExecFns;
use crate::text::{chars_of, push_char, str_eq, string_from_chars, to_lowercase, unicode_lowercase, u64_to_string,
    dec};
use crate::vmf::block::{split, split_text};
use crate::vmf::parse_ctx::texts;
use super::paths::{has_prefix, join, join_path, macro_path, parent, parent_path, resolve_macro_path, starts_with};

verus! {

/// Unicode white space, as `char::is_whitespace` defines it (the
/// `White_Space` property).
pub open spec fn is_ws(c: char) -> bool {
    ('\u{9}' <= c && c <= '\u{D}') || c == ' ' || c == '\u{85}' || c == '\u{A0}' || c == '\u{1680}' || ('\u{2000}'
        <= c && c <= '\u{200A}') || c == '\u{2028}' || c == '\u{2029}' || c == '\u{202F}' || c == '\u{205F}' || c
        == '\u{3000}'
}

/// `char::is_whitespace`.
pub fn ws(c: char) -> (r: bool)
    ensures
        r == is_ws(c),
{
    ('\u{9}' <= c && c <= '\u{D}') || c == ' ' || c == '\u{85}' || c == '\u{A0}' || c == '\u{1680}' || ('\u{2000}'
        <= c && c <= '\u{200A}') || c == '\u{2028}' || c == '\u{2029}' || c == '\u{202F}' || c == '\u{205F}' || c
        == '\u{3000}'
}

/// Number of characters at the start of `s` that satisfy `is_ws`.
pub open spec fn lead_ws(s: Seq<char>) -> nat
    decreases s.len(),
{
    if s.len() > 0 && is_ws(s[0]) {
        1 + lead_ws(s.drop_first())
    } else {
        0
    }
}

/// Number of characters at the end of `s` that satisfy `is_ws`.
pub open spec fn trail_ws(s: Seq<char>) -> nat
    decreases s.len(),
{
    if s.len() > 0 && is_ws(s.last()) {
        1 + trail_ws(s.drop_last())
    } else {
        0
    }
}

/// `str::trim_start`.
pub open spec fn trim_start(s: Seq<char>) -> Seq<char> {
    s.skip(lead_ws(s) as int)
}

/// `str::trim`.
pub open spec fn trim(s: Seq<char>) -> Seq<char> {
    let t = trim_start(s);
    t.take(t.len() - trail_ws(t))
}

proof fn lemma_lead_ws(s: Seq<char>)
    ensures
        lead_ws(s) <= s.len(),
        forall|j: int| 0 <= j < lead_ws(s) ==> is_ws(s[j]),
        lead_ws(s) < s.len() ==> !is_ws(s[lead_ws(s) as int]),
    decreases s.len(),
{
    if s.len() > 0 && is_ws(s[0]) {
        lemma_lead_ws(s.drop_first());
        assert forall|j: int| 0 <= j < lead_ws(s) implies is_ws(s[j]) by {
            if j > 0 {
                assert(s[j] == s.drop_first()[j - 1]);
            }
        }
        if lead_ws(s) < s.len() {
            assert(s[lead_ws(s) as int] == s.drop_first()[lead_ws(s) - 1]);
        }
    }
}

proof fn lemma_trail_ws(s: Seq<char>)
    ensures
        trail_ws(s) <= s.len(),
        forall|j: int| s.len() - trail_ws(s) <= j < s.len() ==> is_ws(s[j]),
        trail_ws(s) < s.len() ==> !is_ws(s[s.len() - trail_ws(s) - 1]),
    decreases s.len(),
{
    if s.len() > 0 && is_ws(s.last()) {
        lemma_trail_ws(s.drop_last());
        assert forall|j: int| s.len() - trail_ws(s) <= j < s.len() implies is_ws(s[j]) by {
            if j < s.len() - 1 {
                assert(s[j] == s.drop_last()[j]);
            }
        }
        if trail_ws(s) < s.len() {
            assert(s[s.len() - trail_ws(s) - 1] == s.drop_last()[s.len() - trail_ws(s) - 1]);
        }
    }
}

/// The count of leading white space of `c[lo..hi]`.
fn count_lead(c: &Vec<char>, lo: usize, hi: usize) -> (k: usize)
    requires
        lo <= hi <= c@.len(),
    ensures
        k == lead_ws(c@.subrange(lo as int, hi as int)),
{
    let ghost s = c@.subrange(lo as int, hi as int);
    let mut i = lo;
    while i < hi && ws(c[i])
        invariant
            lo <= i <= hi <= c@.len(),
            s == c@.subrange(lo as int, hi as int),
            lead_ws(s) == (i - lo) + lead_ws(c@.subrange(i as int, hi as int)),
        decreases hi - i,
    {
        assert(c@.subrange(i + 1, hi as int) =~= c@.subrange(i as int, hi as int).drop_first());
        i = i + 1;
    }
    i - lo
}

/// The count of trailing white space of `c[lo..hi]`.
fn count_trail(c: &Vec<char>, lo: usize, hi: usize) -> (k: usize)
    requires
        lo <= hi <= c@.len(),
    ensures
        k == trail_ws(c@.subrange(lo as int, hi as int)),
{
    let ghost s = c@.subrange(lo as int, hi as int);
    let mut i = hi;
    while i > lo && ws(c[i - 1])
        invariant
            lo <= i <= hi <= c@.len(),
            s == c@.subrange(lo as int, hi as int),
            trail_ws(s) == (hi - i) + trail_ws(c@.subrange(lo as int, i as int)),
        decreases i - lo,
    {
        assert(c@.subrange(lo as int, i - 1) =~= c@.subrange(lo as int, i as int).drop_last());
        i = i - 1;
    }
    hi - i
}

/// `str::trim`.
pub fn trim_text(s: &str) -> (r: String)
    ensures
        r@ == trim(s@),
{
    let c = chars_of(s);
    let n = c.len();
    assert(c@.subrange(0, n as int) =~= s@);
    let a = count_lead(&c, 0, n);
    proof {
        lemma_lead_ws(s@);
    }
    assert(c@.subrange(a as int, n as int) =~= trim_start(s@));
    let b = count_trail(&c, a, n);
    proof {
        lemma_trail_ws(trim_start(s@));
    }
    let out = vstd::slice::slice_subrange(c.as_slice(), a, n - b);
    let r = string_from_chars(out);
    assert(r@ =~= trim(s@));
    r
}

/// `s` without the `"` characters at its start and its end
/// (`str::trim_matches('"')`).
pub open spec fn trim_quotes(s: Seq<char>) -> Seq<char>
    decreases s.len(),
{
    if s.len() > 0 && s[0] == '"' {
        trim_quotes(s.drop_first())
    } else if s.len() > 0 && s.last() == '"' {
        trim_quotes(s.drop_last())
    } else {
        s
    }
}

/// `str::trim_matches('"')`.
pub fn trim_quotes_text(s: &str) -> (r: String)
    ensures
        r@ == trim_quotes(s@),
{
    let c = chars_of(s);
    let mut lo: usize = 0;
    let mut hi: usize = c.len();
    assert(c@.subrange(0, c@.len() as int) =~= c@);
    while lo < hi && (c[lo] == '"' || c[hi - 1] == '"')
        invariant
            lo <= hi <= c@.len(),
            trim_quotes(c@) == trim_quotes(c@.subrange(lo as int, hi as int)),
        decreases hi - lo,
    {
        if c[lo] == '"' {
            assert(c@.subrange(lo + 1, hi as int) =~= c@.subrange(lo as int, hi as int).drop_first());
            lo = lo + 1;
        } else {
            assert(c@.subrange(lo as int, hi - 1) =~= c@.subrange(lo as int, hi as int).drop_last());
            hi = hi - 1;
        }
    }
    let out = vstd::slice::slice_subrange(c.as_slice(), lo, hi);
    string_from_chars(out)
}

/// `s` without one `\r` at its end.
pub open spec fn strip_cr(s: Seq<char>) -> Seq<char> {
    if s.len() > 0 && s.last() == '\r' {
        s.drop_last()
    } else {
        s
    }
}

/// The lines of a text (`str::lines`): the pieces between line feeds, each
/// ended line without a `\r` before its line feed, and no empty piece
/// after a final line feed.
pub open spec fn lines_of(s: Seq<char>) -> Seq<Seq<char>> {
    let ps = split(s, '\n');
    let ended = ps.drop_last().map_values(|p: Seq<char>| strip_cr(p));
    if ps.last().len() == 0 {
        ended
    } else {
        ended.push(ps.last())
    }
}

/// `str::lines`.
pub fn text_lines(s: &str) -> (r: Vec<String>)
    ensures
        texts(r@) == lines_of(s@),
{
    let ps = split_text(s, '\n');
    let ghost pv = texts(ps@);
    assert(pv == split(s@, '\n'));
    let n = ps.len();
    let mut r: Vec<String> = Vec::new();
    let mut i: usize = 0;
    while i + 1 < n
        invariant
            i + 1 <= n || n == 0,
            n == ps@.len(),
            pv == texts(ps@),
            i <= n,
            texts(r@) == pv.drop_last().take(i as int).map_values(|p: Seq<char>| strip_cr(p)),
        decreases n - i,
    {
        let c = chars_of(ps[i].as_str());
        let m = c.len();
        let line = if m > 0 && c[m - 1] == '\r' {
            string_from_chars(vstd::slice::slice_subrange(c.as_slice(), 0, m - 1))
        } else {
            ps[i].clone()
        };
        assert(line@ == strip_cr(pv[i as int]));
        let ghost r0 = texts(r@);
        r.push(line);
        assert(texts(r@) =~= r0.push(line@));
        assert(pv.drop_last().take(i + 1).map_values(|p: Seq<char>| strip_cr(p)) =~= pv.drop_last().take(
            i as int,
        ).map_values(|p: Seq<char>| strip_cr(p)).push(strip_cr(pv[i as int])));
        i = i + 1;
    }
    proof {
        split_nonempty(s@, '\n');
    }
    assert(pv.drop_last().take(i as int) =~= pv.drop_last());
    if !ps[n - 1].as_str().is_empty() {
        let last = ps[n - 1].clone();
        let ghost r0 = texts(r@);
        r.push(last);
        assert(texts(r@) =~= r0.push(last@));
    } else {
        assert(pv.last().len() == 0);
    }
    r
}

/// `split` gives at least one piece.
proof fn split_nonempty(s: Seq<char>, sep: char)
    ensures
        split(s, sep).len() >= 1,
{
}

/// Whether `pat` occurs in `s` (`str::contains` with a string).
pub open spec fn contains_text(s: Seq<char>, pat: Seq<char>) -> bool {
    exists|i: int| #[trigger] match_at(s, pat, i)
}

/// Whether `pat` occurs in `s` at `i`.
pub open spec fn match_at(s: Seq<char>, pat: Seq<char>, i: int) -> bool {
    0 <= i && i + pat.len() <= s.len() && s.subrange(i, i + pat.len()) == pat
}

/// `str::contains` with a string pattern.
pub fn contains_str(s: &str, pat: &str) -> (r: bool)
    ensures
        r == contains_text(s@, pat@),
{
    let n = s.unicode_len();
    let m = pat.unicode_len();
    if m > n {
        return false;
    }
    if m == 0 {
        assert(s@.subrange(0, 0) =~= pat@);
        assert(match_at(s@, pat@, 0));
        return true;
    }
    let mut i: usize = 0;
    while i <= n - m
        invariant
            1 <= m <= n,
            n == s@.len(),
            m == pat@.len(),
            i <= n - m + 1,
            forall|j: int| 0 <= j < i ==> !#[trigger] match_at(s@, pat@, j),
        decreases n - i,
    {
        let w = s.substring_char(i, i + m);
        if str_eq(w, pat) {
            assert(match_at(s@, pat@, i as int));
            return true;
        }
        i = i + 1;
    }
    proof {
        assert forall|j: int| !#[trigger] match_at(s@, pat@, j) by {
            if 0 <= j < i {
            }
        }
    }
    false
}

/// Index of the first white-space character of `s`, or -1.
pub open spec fn first_ws(s: Seq<char>) -> int
    decreases s.len(),
{
    if s.len() == 0 {
        -1
    } else if is_ws(s[0]) {
        0
    } else if first_ws(s.drop_first()) < 0 {
        -1
    } else {
        first_ws(s.drop_first()) + 1
    }
}

proof fn lemma_first_ws_at(s: Seq<char>, k: int)
    requires
        0 <= k <= s.len(),
        forall|j: int| 0 <= j < k ==> !is_ws(s[j]),
    ensures
        k < s.len() && is_ws(s[k]) ==> first_ws(s) == k,
        k == s.len() ==> first_ws(s) == -1,
    decreases k,
{
    if k > 0 {
        lemma_first_ws_at(s.drop_first(), k - 1);
    }
}

/// The position of the first white-space character of `s`.
fn find_ws(s: &Vec<char>) -> (r: Option<usize>)
    ensures
        r is Some ==> r->0 == first_ws(s@) && r->0 < s@.len(),
        r is None ==> first_ws(s@) == -1,
{
    let mut k: usize = 0;
    while k < s.len()
        invariant
            k <= s@.len(),
            forall|j: int| 0 <= j < k ==> !is_ws(s@[j]),
        decreases s.len() - k,
    {
        if ws(s[k]) {
            proof {
                lemma_first_ws_at(s@, k as int);
            }
            return Some(k);
        }
        k = k + 1;
    }
    proof {
        lemma_first_ws_at(s@, k as int);
    }
    None
}

/// The two parts of `s` around its first white-space character
/// (`splitn(2, char::is_whitespace)`); the second is missing where there
/// is none.
pub open spec fn split_ws(s: Seq<char>) -> (Seq<char>, Option<Seq<char>>) {
    let k = first_ws(s);
    if k >= 0 {
        (s.take(k), Some(s.skip(k + 1)))
    } else {
        (s, None)
    }
}

fn split_ws_text(s: &str) -> (r: (String, Option<String>))
    ensures
        r.0@ == split_ws(s@).0,
        match split_ws(s@).1 {
            Some(t) => r.1 is Some && r.1->0@ == t,
            None => r.1 is None,
        },
{
    let c = chars_of(s);
    match find_ws(&c) {
        Some(k) => {
            let n = c.len();
            assert(k < n);
            let a = string_from_chars(vstd::slice::slice_subrange(c.as_slice(), 0, k));
            let b = string_from_chars(vstd::slice::slice_subrange(c.as_slice(), k + 1, c.len()));
            assert(a@ =~= s@.take(k as int));
            assert(b@ =~= s@.skip(k + 1));
            (a, Some(b))
        },
        None => (s.to_string(), None),
    }
}

/// `str::trim_start`.
fn trim_start_text(s: &str) -> (r: String)
    ensures
        r@ == trim_start(s@),
{
    let c = chars_of(s);
    let n = c.len();
    assert(c@.subrange(0, n as int) =~= s@);
    let a = count_lead(&c, 0, n);
    proof {
        lemma_lead_ws(s@);
    }
    let r = string_from_chars(vstd::slice::slice_subrange(c.as_slice(), a, n));
    assert(r@ =~= trim_start(s@));
    r
}

/// What reading `gameinfo.txt` has found after some lines: whether the
/// `SearchPaths` block was entered, whether it has ended, and the entries
/// read so far.
pub struct GameInfoScan {
    pub inside: bool,
    pub done: bool,
    pub paths: Seq<(Seq<char>, Seq<char>)>,
}

/// The state after one more line of `gameinfo.txt`. A line that holds
/// `searchpaths` (in lower case) opens the block; inside it, `}` ends it,
/// `{`, empty lines and `//` comments are passed over, and a line of two
/// parts gives an entry: the first part, and the second with its macros
/// resolved against `gameinfo_path`.
pub open spec fn scan_line(st: GameInfoScan, line: Seq<char>, gameinfo_path: Seq<char>) -> GameInfoScan {
    let l = unicode_lowercase(trim(line));
    if st.done {
        st
    } else if contains_text(l, "searchpaths"@) {
        GameInfoScan { inside: true, ..st }
    } else if !st.inside {
        st
    } else if l == seq!['}'] {
        GameInfoScan { done: true, ..st }
    } else if l == seq!['{'] || l.len() == 0 || has_prefix(l, seq!['/', '/']) {
        st
    } else {
        let (a, b) = split_ws(trim(l));
        match b {
            Some(rest) => GameInfoScan {
                paths: st.paths.push(
                    (trim_quotes(trim_start(a)), macro_path(trim_quotes(trim_start(rest)), gameinfo_path)),
                ),
                ..st
            },
            None => st,
        }
    }
}

/// The state after the lines of `gameinfo.txt`.
pub open spec fn scan_lines(lines: Seq<Seq<char>>, gameinfo_path: Seq<char>) -> GameInfoScan
    decreases lines.len(),
{
    if lines.len() == 0 {
        GameInfoScan { inside: false, done: false, paths: Seq::empty() }
    } else {
        scan_line(scan_lines(lines.drop_last(), gameinfo_path), lines.last(), gameinfo_path)
    }
}

proof fn lemma_trim_plain(s: Seq<char>)
    requires
        s.len() > 0,
        !is_ws(s[0]),
        !is_ws(s.last()),
    ensures
        trim_start(s) == s,
        trim(s) == s,
{
    assert(lead_ws(s) == 0);
    assert(s.skip(0) =~= s);
    assert(trail_ws(s) == 0);
    assert(s.take(s.len() as int) =~= s);
}

proof fn lemma_first_ws_after(k: Seq<char>, r: Seq<char>)
    requires
        forall|i: int| 0 <= i < k.len() ==> !is_ws(#[trigger] k[i]),
        r.len() > 0,
        is_ws(r[0]),
    ensures
        first_ws(k + r) == k.len(),
    decreases k.len(),
{
    if k.len() == 0 {
        assert(k + r =~= r);
    } else {
        assert((k + r)[0] == k[0]);
        assert((k + r).drop_first() =~= k.drop_first() + r);
        lemma_first_ws_after(k.drop_first(), r);
    }
}

proof fn lemma_trim_quotes_plain(v: Seq<char>)
    requires
        v.len() > 0 ==> v[0] != '"' && v.last() != '"',
    ensures
        trim_quotes(v) == v,
{
}

proof fn lemma_trim_quotes_wrapped(v: Seq<char>)
    requires
        v.len() > 0,
        v[0] != '"',
        v.last() != '"',
    ensures
        trim_quotes(seq!['"'] + v + seq!['"']) == v,
{
    let q = seq!['"'] + v + seq!['"'];
    let u = v + seq!['"'];
    assert(q.drop_first() =~= u);
    assert(u.drop_last() =~= v);
    assert(u[0] == v[0]);
    assert(trim_quotes(q) == trim_quotes(u));
    assert(trim_quotes(u) == trim_quotes(v));
    lemma_trim_quotes_plain(v);
}

/// The entry that a search path line reading `k`, a white space and `rest`
/// gives.
proof fn lemma_entry_line(
    st: GameInfoScan,
    line: Seq<char>,
    k: Seq<char>,
    w: char,
    rest: Seq<char>,
    gp: Seq<char>,
)
    requires
        st.inside,
        !st.done,
        is_ws(w),
        k.len() > 0,
        forall|i: int| 0 <= i < k.len() ==> !is_ws(#[trigger] k[i]),
        !(k.len() >= 2 && k[0] == '/' && k[1] == '/'),
        rest.len() > 0,
        !is_ws(rest.last()),
        unicode_lowercase(trim(line)) == k + seq![w] + rest,
        !contains_text(k + seq![w] + rest, "searchpaths"@),
    ensures
        scan_line(st, line, gp) == (GameInfoScan {
            paths: st.paths.push((trim_quotes(trim_start(k)), macro_path(trim_quotes(trim_start(rest)), gp))),
            ..st
        }),
{
    let l = k + seq![w] + rest;
    assert(l[0] == k[0]);
    assert(l.last() == rest.last());
    lemma_trim_plain(l);
    assert(l =~= k + (seq![w] + rest));
    lemma_first_ws_after(k, seq![w] + rest);
    assert(l.take(k.len() as int) =~= k);
    assert(l.skip(k.len() as int + 1) =~= rest);
    assert(!has_prefix(l, seq!['/', '/'])) by {
        if has_prefix(l, seq!['/', '/']) {
            assert(l.take(2)[0] == l[0] && l.take(2)[1] == l[1]);
            if k.len() == 1 {
                assert(l[1] == w);
            } else {
                assert(l[1] == k[1]);
            }
        }
    }
    assert(l != seq!['}'] && l != seq!['{'] && l.len() != 0) by {
        assert(l.len() >= 3);
    }
}

/// A search path written in quotes reads as the same path written without
/// them: within the `SearchPaths` block, a line that reads (case-folded)
/// `k "v"` gives the same entry as one that reads `k v`, namely `v` under
/// `k` with its `|gameinfo_path|` macro resolved.
pub proof fn lemma_quoted_value_entry(
    st: GameInfoScan,
    line1: Seq<char>,
    line2: Seq<char>,
    k: Seq<char>,
    w: char,
    v: Seq<char>,
    gp: Seq<char>,
)
    requires
        st.inside,
        !st.done,
        is_ws(w),
        k.len() > 0,
        forall|i: int| 0 <= i < k.len() ==> !is_ws(#[trigger] k[i]) && k[i] != '"',
        !(k.len() >= 2 && k[0] == '/' && k[1] == '/'),
        v.len() > 0,
        forall|i: int| 0 <= i < v.len() ==> (#[trigger] v[i]) != '"',
        !is_ws(v[0]),
        !is_ws(v.last()),
        unicode_lowercase(trim(line1)) == k + seq![w] + (seq!['"'] + v + seq!['"']),
        unicode_lowercase(trim(line2)) == k + seq![w] + v,
        !contains_text(k + seq![w] + (seq!['"'] + v + seq!['"']), "searchpaths"@),
        !contains_text(k + seq![w] + v, "searchpaths"@),
    ensures
        scan_line(st, line1, gp) == scan_line(st, line2, gp),
        scan_line(st, line2, gp).paths == st.paths.push((k, macro_path(v, gp))),
{
    let r1 = seq!['"'] + v + seq!['"'];
    assert(r1.last() == '"');
    lemma_entry_line(st, line1, k, w, r1, gp);
    lemma_entry_line(st, line2, k, w, v, gp);
    assert(k[k.len() - 1] == k.last());
    lemma_trim_plain(k);
    lemma_trim_quotes_plain(k);
    assert(r1[0] == '"');
    assert(lead_ws(r1) == 0);
    assert(r1.skip(0) =~= r1);
    assert(v[v.len() - 1] == v.last());
    lemma_trim_plain(v);
    lemma_trim_quotes_plain(v);
    lemma_trim_quotes_wrapped(v);
}

/// The entries of the `SearchPaths` block of a `gameinfo.txt`, or none
/// where it has none.
pub open spec fn gameinfo_paths(content: Seq<char>, gameinfo_path: Seq<char>) -> Option<Seq<(Seq<char>, Seq<char>)>> {
    let ps = scan_lines(lines_of(content), gameinfo_path).paths;
    if ps.len() == 0 {
        None
    } else {
        Some(ps)
    }
}

/// The texts of a list of pairs of strings.
pub open spec fn pair_texts(v: Seq<(String, String)>) -> Seq<(Seq<char>, Seq<char>)> {
    v.map_values(|p: (String, String)| (p.0@, p.1@))
}

/// A basic reader of the `SearchPaths` block of `gameinfo.txt`.
pub struct SimpleGameInfo;

impl SimpleGameInfo {
    /// Reads the search paths from the text of `gameinfo.txt`, whose
    /// canonical path is `gameinfo_path`. The result is a list of
    /// `(search_path_id, path)`, or `None` where there is none.
    pub fn parse_search_paths(content: &str, gameinfo_path: &str) -> (r: Option<Vec<(String, String)>>)
        ensures
            match gameinfo_paths(content@, gameinfo_path@) {
                Some(ps) => r is Some && pair_texts(r->0@) == ps,
                None => r is None,
            },
    {
        let lines = text_lines(content);
        let ghost lv = texts(lines@);
        let mut paths: Vec<(String, String)> = Vec::new();
        let mut inside = false;
        let mut i: usize = 0;
        assert(lv.take(0) =~= Seq::<Seq<char>>::empty());
        assert(pair_texts(paths@) =~= Seq::<(Seq<char>, Seq<char>)>::empty());
        while i < lines.len()
            invariant
                i <= lines@.len(),
                lv == texts(lines@),
                lv == lines_of(content@),
                ({
                    let st = scan_lines(lv.take(i as int), gameinfo_path@);
                    st.inside == inside && !st.done && st.paths == pair_texts(paths@)
                }),
            decreases lines.len() - i,
        {
            assert(lv.take(i + 1).drop_last() =~= lv.take(i as int));
            let t = trim_text(lines[i].as_str());
            let l = to_lowercase(t.as_str());
            proof {
                reveal_strlit("searchpaths");
                reveal_strlit("}");
                reveal_strlit("{");
                reveal_strlit("//");
                assert("}"@ =~= seq!['}']);
                assert("{"@ =~= seq!['{']);
                assert("//"@ =~= seq!['/', '/']);
            }
            if contains_str(l.as_str(), "searchpaths") {
                inside = true;
            } else if inside {
                if str_eq(l.as_str(), "}") {
                    assert(lv.take(i + 1).last() == lv[i as int]);
                    assert(scan_lines(lv.take(i + 1), gameinfo_path@).paths == pair_texts(paths@));
                    assert(scan_lines(lv.take(i + 1), gameinfo_path@).done);
                    proof {
                        lemma_scan_done(lv, i as int, gameinfo_path@);
                    }
                    assert(lv.take(lines@.len() as int) =~= lv);
                    assert(scan_lines(lv, gameinfo_path@).paths == pair_texts(paths@));
                    assert(pair_texts(paths@).len() == paths@.len());
                    if paths.len() == 0 {
                        return None;
                    }
                    return Some(paths);
                }
                if !(str_eq(l.as_str(), "{") || l.as_str().is_empty() || starts_with(l.as_str(), "//")) {
                    let tl = trim_text(l.as_str());
                    let (a, b) = split_ws_text(tl.as_str());
                    match b {
                        Some(rest) => {
                            let a1 = trim_start_text(a.as_str());
                            let key = trim_quotes_text(a1.as_str());
                            let r1 = trim_start_text(rest.as_str());
                            let v = trim_quotes_text(r1.as_str());
                            let resolved = resolve_macro_path(v.as_str(), gameinfo_path);
                            let ghost p0 = pair_texts(paths@);
                            paths.push((key, resolved));
                            assert(pair_texts(paths@) =~= p0.push((key@, resolved@)));
                        },
                        None => {},
                    }
                }
            }
            i = i + 1;
        }
        assert(lv.take(lines@.len() as int) =~= lv);
        if paths.len() == 0 {
            None
        } else {
            Some(paths)
        }
    }
}

/// Once the block has ended, later lines change nothing.
proof fn lemma_scan_done(lv: Seq<Seq<char>>, i: int, gp: Seq<char>)
    requires
        0 <= i < lv.len(),
        scan_lines(lv.take(i + 1), gp).done,
    ensures
        scan_lines(lv, gp) == scan_lines(lv.take(i + 1), gp),
    decreases lv.len() - i,
{
    if i + 1 < lv.len() {
        assert(lv.take(i + 2).drop_last() =~= lv.take(i + 1));
        lemma_scan_done(lv, i + 1, gp);
    } else {
        assert(lv.take(i + 1) =~= lv);
    }
}

/// The game directory that a line of `mount.cfg` mounts, if any: a line
/// that is no comment, brace or `mountcfg` header, of two non-empty parts
/// around its first white space, names the directory in its second part,
/// relative to the game directory unless absolute.
pub open spec fn mount_line(line: Seq<char>, game_dir: Seq<char>) -> Option<Seq<char>> {
    let l = trim(line);
    if has_prefix(l, seq!['/', '/']) || l.len() == 0 || l == seq!['{'] || l == seq!['}'] || contains_text(
        l,
        "mountcfg"@,
    ) {
        None
    } else {
        let (a, b) = split_ws(l);
        match b {
            Some(rest) => {
                let p0 = trim_quotes(trim(a));
                let p1 = trim_quotes(trim(rest));
                if p0.len() > 0 && p1.len() > 0 {
                    Some(join_path(game_dir, p1))
                } else {
                    None
                }
            },
            None => None,
        }
    }
}

/// The game directories that the lines of `mount.cfg` mount, in order.
pub open spec fn mount_dirs(lines: Seq<Seq<char>>, game_dir: Seq<char>) -> Seq<Seq<char>>
    decreases lines.len(),
{
    if lines.len() == 0 {
        Seq::empty()
    } else {
        let before = mount_dirs(lines.drop_last(), game_dir);
        match mount_line(lines.last(), game_dir) {
            Some(d) => before.push(d),
            None => before,
        }
    }
}

/// A reader of `gameinfo.txt` that also mounts the games listed in
/// `cfg/mount.cfg`, as Garry's Mod and P2CE do.
pub struct SimpleWithMount;

impl SimpleWithMount {
    /// The game directories that the text of `mount.cfg` mounts, for the
    /// game in `game_dir`.
    pub fn mounted_game_dirs(content: &str, game_dir: &str) -> (r: Vec<String>)
        ensures
            texts(r@) == mount_dirs(lines_of(content@), game_dir@),
    {
        let lines = text_lines(content);
        let ghost lv = texts(lines@);
        let mut out: Vec<String> = Vec::new();
        let mut i: usize = 0;
        assert(lv.take(0) =~= Seq::<Seq<char>>::empty());
        assert(texts(out@) =~= Seq::<Seq<char>>::empty());
        while i < lines.len()
            invariant
                i <= lines@.len(),
                lv == texts(lines@),
                texts(out@) == mount_dirs(lv.take(i as int), game_dir@),
            decreases lines.len() - i,
        {
            assert(lv.take(i + 1).drop_last() =~= lv.take(i as int));
            let l = trim_text(lines[i].as_str());
            proof {
                reveal_strlit("}");
                reveal_strlit("{");
                reveal_strlit("//");
                assert("}"@ =~= seq!['}']);
                assert("{"@ =~= seq!['{']);
                assert("//"@ =~= seq!['/', '/']);
            }
            if !(starts_with(l.as_str(), "//") || l.as_str().is_empty() || str_eq(l.as_str(), "{") || str_eq(
                l.as_str(),
                "}",
            ) || contains_str(l.as_str(), "mountcfg")) {
                let (a, b) = split_ws_text(l.as_str());
                match b {
                    Some(rest) => {
                        let a1 = trim_text(a.as_str());
                        let p0 = trim_quotes_text(a1.as_str());
                        let r1 = trim_text(rest.as_str());
                        let p1 = trim_quotes_text(r1.as_str());
                        if !p0.as_str().is_empty() && !p1.as_str().is_empty() {
                            let d = join(game_dir, p1.as_str());
                            let ghost o0 = texts(out@);
                            out.push(d);
                            assert(texts(out@) =~= o0.push(d@));
                        }
                    },
                    None => {},
                }
            }
            i = i + 1;
        }
        assert(lv.take(lines@.len() as int) =~= lv);
        out
    }
}

/// Portal 2 mounts its DLC folders `portal2_dlc1/`, `portal2_dlc2/`, ...
/// that exist, the last one first, before the search paths of
/// `gameinfo.txt`.
pub struct P2GameInfo;

/// The name of the DLC folder numbered `idx`.
pub open spec fn dlc_dir(idx: nat) -> Seq<char> {
    "portal2_dlc"@ + dec(idx) + seq!['/']
}

/// The search paths of the DLC folders found, in reverse order, then
/// those of `gameinfo.txt`.
pub open spec fn p2_paths(found: Seq<Seq<char>>, base: Seq<(Seq<char>, Seq<char>)>) -> Seq<(Seq<char>, Seq<char>)> {
    found.reverse().map_values(|d: Seq<char>| ("game"@, d)) + base
}

impl P2GameInfo {
    /// The name of the DLC folder numbered `idx`.
    pub fn dlc_name(idx: u64) -> (r: String)
        ensures
            r@ == dlc_dir(idx as nat),
    {
        let mut s = String::new();
        s.append("portal2_dlc");
        let n = u64_to_string(idx);
        s.append(n.as_str());
        push_char(&mut s, '/');
        s
    }

    /// The directory the DLC folders are looked for in: two levels above
    /// `gameinfo.txt`, or the empty path.
    pub fn game_root(gameinfo_path: &str) -> (r: String)
        ensures
            r@ == match parent_path(gameinfo_path@) {
                Some(p) => match parent_path(p) {
                    Some(q) => q,
                    None => Seq::empty(),
                },
                None => Seq::empty(),
            },
    {
        match parent(gameinfo_path) {
            Some(p) => match parent(p.as_str()) {
                Some(q) => q,
                None => String::new(),
            },
            None => String::new(),
        }
    }

    /// The search paths of the DLC folders found (in the order of their
    /// numbers), last one first, followed by `base`.
    pub fn combine(found: &Vec<String>, base: Vec<(String, String)>) -> (r: Vec<(String, String)>)
        ensures
            pair_texts(r@) == p2_paths(texts(found@), pair_texts(base@)),
    {
        let ghost fv = texts(found@);
        let mut r: Vec<(String, String)> = Vec::new();
        let mut i: usize = found.len();
        assert(pair_texts(r@) =~= Seq::<(Seq<char>, Seq<char>)>::empty());
        while i > 0
            invariant
                i <= found@.len(),
                fv == texts(found@),
                pair_texts(r@) == fv.skip(i as int).reverse().map_values(|d: Seq<char>| ("game"@, d)),
            decreases i,
        {
            let ghost r0 = pair_texts(r@);
            let g = "game".to_string();
            r.push((g, found[i - 1].clone()));
            assert(pair_texts(r@) =~= r0.push(("game"@, fv[i - 1])));
            assert(fv.skip(i - 1).reverse().map_values(|d: Seq<char>| ("game"@, d)) =~= fv.skip(i as int).reverse().map_values(
                |d: Seq<char>| ("game"@, d),
            ).push(("game"@, fv[i - 1])));
            i = i - 1;
        }
        assert(fv.skip(0) =~= fv);
        let mut j: usize = 0;
        let ghost r1 = pair_texts(r@);
        let ghost bv = pair_texts(base@);
        assert(bv.take(0) =~= Seq::<(Seq<char>, Seq<char>)>::empty());
        assert(r1 + bv.take(0) =~= r1);
        while j < base.len()
            invariant
                j <= base@.len(),
                bv == pair_texts(base@),
                pair_texts(r@) == r1 + bv.take(j as int),
            decreases base.len() - j,
        {
            let ghost r0 = pair_texts(r@);
            let e = (base[j].0.clone(), base[j].1.clone());
            r.push(e);
            assert(pair_texts(r@) =~= r0.push(bv[j as int]));
            assert(r1 + bv.take(j + 1) =~= (r1 + bv.take(j as int)).push(bv[j as int]));
            j = j + 1;
        }
        assert(bv.take(base@.len() as int) =~= bv);
        r
    }
}

/// The words of a text, as `str::split_whitespace` gives them: the
/// non-empty runs of characters between white space. The state is the
/// words finished and the word being read.
pub open spec fn words_state(s: Seq<char>) -> (Seq<Seq<char>>, Seq<char>)
    decreases s.len(),
{
    if s.len() == 0 {
        (Seq::empty(), Seq::empty())
    } else {
        let (done, cur) = words_state(s.drop_last());
        if is_ws(s.last()) {
            if cur.len() > 0 {
                (done.push(cur), Seq::empty())
            } else {
                (done, cur)
            }
        } else {
            (done, cur.push(s.last()))
        }
    }
}

/// `str::split_whitespace`.
pub open spec fn words_of(s: Seq<char>) -> Seq<Seq<char>> {
    let (done, cur) = words_state(s);
    if cur.len() > 0 {
        done.push(cur)
    } else {
        done
    }
}

/// `str::split_whitespace`.
pub fn words_text(s: &str) -> (r: Vec<String>)
    ensures
        texts(r@) == words_of(s@),
{
    let c = chars_of(s);
    let mut done: Vec<String> = Vec::new();
    let mut cur: Vec<char> = Vec::new();
    let mut i: usize = 0;
    assert(c@.take(0) =~= Seq::<char>::empty());
    assert(texts(done@) =~= Seq::<Seq<char>>::empty());
    while i < c.len()
        invariant
            i <= c@.len(),
            c@ == s@,
            texts(done@) == words_state(c@.take(i as int)).0,
            cur@ == words_state(c@.take(i as int)).1,
        decreases c.len() - i,
    {
        assert(c@.take(i + 1).drop_last() =~= c@.take(i as int));
        if ws(c[i]) {
            if cur.len() > 0 {
                let w = string_from_chars(cur.as_slice());
                let ghost d0 = texts(done@);
                done.push(w);
                assert(texts(done@) =~= d0.push(w@));
                cur = Vec::new();
            }
        } else {
            cur.push(c[i]);
        }
        i = i + 1;
    }
    assert(c@.take(c@.len() as int) =~= c@);
    if cur.len() > 0 {
        let w = string_from_chars(cur.as_slice());
        let ghost d0 = texts(done@);
        done.push(w);
        assert(texts(done@) =~= d0.push(w@));
    }
    done
}

} // verus!
