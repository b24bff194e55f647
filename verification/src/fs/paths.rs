//! Paths of the game file system, as text.
//!
//! A path here is a string whose components are separated by `/`; it is
//! absolute when it starts with `/`. The operations follow `std::path` on
//! such strings: joining, taking the parent, and the Source engine's
//! `|macro|` prefixes in search paths.

use vstd::prelude::*;
use vstd::string::StrSliceExecFns;
use crate::text::{chars_of, push_char, string_from_chars};

verus! {

/// `s` with every backslash turned into a slash.
pub open spec fn forward_slashes(s: Seq<char>) -> Seq<char> {
    s.map_values(|c: char| if c == '\\' { '/' } else { c })
}

/// Turns backslashes into slashes, then drops a leading slash when
/// `strip_prefix` and a trailing one when `strip_suffix`.
pub open spec fn normalized(s: Seq<char>, strip_prefix: bool, strip_suffix: bool) -> Seq<char> {
    let p = forward_slashes(s);
    let q = if strip_prefix && p.len() > 0 && p[0] == '/' {
        p.drop_first()
    } else {
        p
    };
    if strip_suffix && q.len() > 0 && q.last() == '/' {
        q.drop_last()
    } else {
        q
    }
}

/// Normalizes slash types, optionally dropping a leading and a trailing
/// slash.
pub fn normalize_slashes(path: &str, strip_prefix: bool, strip_suffix: bool) -> (r: String)
    ensures
        r@ == normalized(path@, strip_prefix, strip_suffix),
{
    let c = chars_of(path);
    let mut p: Vec<char> = Vec::new();
    let mut i: usize = 0;
    while i < c.len()
        invariant
            i <= c@.len(),
            c@ == path@,
            p@ == forward_slashes(c@.take(i as int)),
        decreases c.len() - i,
    {
        let ch = if c[i] == '\\' {
            '/'
        } else {
            c[i]
        };
        p.push(ch);
        assert(forward_slashes(c@.take(i + 1)) =~= forward_slashes(c@.take(i as int)).push(ch));
        i = i + 1;
    }
    assert(c@.take(c@.len() as int) =~= c@);
    let n = p.len();
    let start: usize = if strip_prefix && n > 0 && p[0] == '/' {
        1
    } else {
        0
    };
    let end: usize = if strip_suffix && n > start && p[n - 1] == '/' {
        n - 1
    } else {
        n
    };
    let out = vstd::slice::slice_subrange(p.as_slice(), start, end);
    let r = string_from_chars(out);
    proof {
        let q = if start == 1 {
            p@.drop_first()
        } else {
            p@
        };
        assert(q =~= p@.subrange(start as int, n as int));
        if end < n {
            assert(r@ =~= q.drop_last());
        } else {
            assert(r@ =~= q);
        }
    }
    r
}

/// Whether `s` starts with `p`.
pub open spec fn has_prefix(s: Seq<char>, p: Seq<char>) -> bool {
    p.len() <= s.len() && s.take(p.len() as int) == p
}

/// Whether `s` ends with `p`.
pub open spec fn has_suffix(s: Seq<char>, p: Seq<char>) -> bool {
    p.len() <= s.len() && s.skip(s.len() - p.len()) == p
}

/// `str::starts_with` with a string pattern.
pub fn starts_with(s: &str, p: &str) -> (r: bool)
    ensures
        r == has_prefix(s@, p@),
{
    let n = s.unicode_len();
    let m = p.unicode_len();
    if m > n {
        return false;
    }
    let head = s.substring_char(0, m);
    assert(head@ =~= s@.take(m as int));
    crate::text::str_eq(head, p)
}

/// `str::ends_with` with a string pattern.
pub fn ends_with(s: &str, p: &str) -> (r: bool)
    ensures
        r == has_suffix(s@, p@),
{
    let n = s.unicode_len();
    let m = p.unicode_len();
    if m > n {
        return false;
    }
    let tail = s.substring_char(n - m, n);
    assert(tail@ =~= s@.skip(n - m));
    crate::text::str_eq(tail, p)
}

/// `base` joined with `rel`: `rel` itself where it is absolute or `base`
/// is empty, else the two with one `/` between them.
pub open spec fn join_path(base: Seq<char>, rel: Seq<char>) -> Seq<char> {
    if rel.len() > 0 && rel[0] == '/' {
        rel
    } else if base.len() == 0 {
        rel
    } else if base.last() == '/' {
        base + rel
    } else {
        base + seq!['/'] + rel
    }
}

/// Joins two paths (`Path::join` on `/`-separated paths).
pub fn join(base: &str, rel: &str) -> (r: String)
    ensures
        r@ == join_path(base@, rel@),
{
    let n = base.unicode_len();
    let m = rel.unicode_len();
    if m > 0 && rel.get_char(0) == '/' {
        return rel.to_string();
    }
    if n == 0 {
        return rel.to_string();
    }
    let mut r = base.to_string();
    if base.get_char(n - 1) != '/' {
        push_char(&mut r, '/');
    }
    r.append(rel);
    r
}

/// Number of slashes at the end of `s`.
pub open spec fn trailing_slashes(s: Seq<char>) -> nat
    decreases s.len(),
{
    if s.len() > 0 && s.last() == '/' {
        1 + trailing_slashes(s.drop_last())
    } else {
        0
    }
}

/// `s` without the slashes at its end.
pub open spec fn trim_slashes_end(s: Seq<char>) -> Seq<char> {
    s.take(s.len() - trailing_slashes(s))
}

proof fn lemma_trailing_slashes(s: Seq<char>)
    ensures
        trailing_slashes(s) <= s.len(),
        forall|j: int| s.len() - trailing_slashes(s) <= j < s.len() ==> s[j] == '/',
        trailing_slashes(s) < s.len() ==> s[s.len() - trailing_slashes(s) - 1] != '/',
    decreases s.len(),
{
    if s.len() > 0 && s.last() == '/' {
        lemma_trailing_slashes(s.drop_last());
        assert forall|j: int| s.len() - trailing_slashes(s) <= j < s.len() implies s[j] == '/' by {
            if j < s.len() - 1 {
                assert(s[j] == s.drop_last()[j]);
            }
        }
        if trailing_slashes(s) < s.len() {
            assert(s[s.len() - trailing_slashes(s) - 1] == s.drop_last()[s.len() - trailing_slashes(s) - 1]);
        }
    }
}

/// Index of the last `/` in `s`, or -1.
pub open spec fn last_slash(s: Seq<char>) -> int
    decreases s.len(),
{
    if s.len() == 0 {
        -1
    } else if s.last() == '/' {
        s.len() - 1
    } else {
        last_slash(s.drop_last())
    }
}

proof fn lemma_last_slash(s: Seq<char>)
    ensures
        -1 <= last_slash(s) < s.len(),
        last_slash(s) >= 0 ==> s[last_slash(s)] == '/',
        forall|j: int| last_slash(s) < j < s.len() ==> s[j] != '/',
    decreases s.len(),
{
    if s.len() > 0 && s.last() != '/' {
        lemma_last_slash(s.drop_last());
        assert forall|j: int| last_slash(s) < j < s.len() implies s[j] != '/' by {
            if j < s.len() - 1 {
                assert(s[j] == s.drop_last()[j]);
            }
        }
    }
}

/// The parent of a path (`Path::parent`): the path without its last
/// component and the slashes before it; `/` for a component right under
/// the root, the empty path for a single relative component, and none for
/// the root or the empty path.
pub open spec fn parent_path(p: Seq<char>) -> Option<Seq<char>> {
    let q = trim_slashes_end(p);
    if q.len() == 0 {
        None
    } else {
        let k = last_slash(q);
        if k < 0 {
            Some(Seq::empty())
        } else {
            let r = trim_slashes_end(q.take(k));
            if r.len() == 0 {
                Some(seq!['/'])
            } else {
                Some(r)
            }
        }
    }
}

/// The index where the trailing slashes of `s` begin.
fn trim_end_len(s: &Vec<char>, n: usize) -> (k: usize)
    requires
        n <= s@.len(),
    ensures
        k == s@.take(n as int).len() - trailing_slashes(s@.take(n as int)),
{
    let mut k = n;
    proof {
        lemma_trailing_slashes(s@.take(n as int));
    }
    while k > 0 && s[k - 1] == '/'
        invariant
            k <= n <= s@.len(),
            trailing_slashes(s@.take(n as int)) == (n - k) + trailing_slashes(s@.take(k as int)),
        decreases k,
    {
        assert(s@.take(k as int).drop_last() =~= s@.take(k - 1));
        k = k - 1;
    }
    k
}

/// The parent of a path.
pub fn parent(p: &str) -> (r: Option<String>)
    ensures
        match parent_path(p@) {
            Some(x) => r is Some && r->0@ == x,
            None => r is None,
        },
{
    let c = chars_of(p);
    let n = c.len();
    assert(c@.take(n as int) =~= c@);
    let qn = trim_end_len(&c, n);
    let ghost q = trim_slashes_end(p@);
    assert(q =~= c@.take(qn as int));
    if qn == 0 {
        return None;
    }
    let mut k = qn;
    proof {
        lemma_last_slash(q);
    }
    while k > 0 && c[k - 1] != '/'
        invariant
            k <= qn <= c@.len(),
            q == c@.take(qn as int),
            last_slash(q) == last_slash(c@.take(k as int)),
        decreases k,
    {
        assert(c@.take(k as int).drop_last() =~= c@.take(k - 1));
        k = k - 1;
    }
    if k == 0 {
        assert(c@.take(0) =~= Seq::<char>::empty());
        return Some(String::new());
    }
    let slash = k - 1;
    assert(last_slash(c@.take(k as int)) == slash);
    assert(q.take(slash as int) =~= c@.take(slash as int));
    let rn = trim_end_len(&c, slash);
    if rn == 0 {
        let mut s = String::new();
        push_char(&mut s, '/');
        return Some(s);
    }
    let out = vstd::slice::slice_subrange(c.as_slice(), 0, rn);
    let s = string_from_chars(out);
    assert(s@ =~= trim_slashes_end(q.take(slash as int)));
    Some(s)
}

/// The engine-root macro of a search path.
pub open spec fn all_paths_macro() -> Seq<char> {
    "|all_source_engine_paths|"@
}

/// The game-directory macro of a search path.
pub open spec fn gameinfo_macro() -> Seq<char> {
    "|gameinfo_path|"@
}

/// The parent of `p`, or `.` where it has none.
pub open spec fn parent_or_dot(p: Seq<char>) -> Seq<char> {
    match parent_path(p) {
        Some(x) => x,
        None => seq!['.'],
    }
}

/// Where a search path value points: under the engine root (the parent of
/// the game directory) for `|all_source_engine_paths|`, under the game
/// directory (the parent of `gameinfo.txt`) for `|gameinfo_path|`, and
/// relative to the engine root otherwise.
pub open spec fn macro_path(value: Seq<char>, gameinfo_path: Seq<char>) -> Seq<char> {
    let game_dir = parent_or_dot(gameinfo_path);
    let engine_root = parent_or_dot(game_dir);
    if has_prefix(value, all_paths_macro()) {
        join_path(engine_root, value.skip(all_paths_macro().len() as int))
    } else if has_prefix(value, gameinfo_macro()) {
        join_path(game_dir, value.skip(gameinfo_macro().len() as int))
    } else {
        join_path(engine_root, value)
    }
}

fn parent_or_dot_of(p: &str) -> (r: String)
    ensures
        r@ == parent_or_dot(p@),
{
    match parent(p) {
        Some(x) => x,
        None => {
            let mut s = String::new();
            push_char(&mut s, '.');
            s
        },
    }
}

/// Resolves the Source engine macros `|all_source_engine_paths|` and
/// `|gameinfo_path|` of a search path value against the path of
/// `gameinfo.txt`, which the caller gives in canonical form.
pub fn resolve_macro_path(value: &str, gameinfo_path: &str) -> (r: String)
    ensures
        r@ == macro_path(value@, gameinfo_path@),
{
    let game_dir = parent_or_dot_of(gameinfo_path);
    let engine_root = parent_or_dot_of(game_dir.as_str());
    let n = value.unicode_len();
    if starts_with(value, "|all_source_engine_paths|") {
        proof {
            reveal_strlit("|all_source_engine_paths|");
        }
        let rest = value.substring_char(25, n);
        assert(rest@ =~= value@.skip(25));
        join(engine_root.as_str(), rest)
    } else if starts_with(value, "|gameinfo_path|") {
        proof {
            reveal_strlit("|gameinfo_path|");
        }
        let rest = value.substring_char(15, n);
        assert(rest@ =~= value@.skip(15));
        join(game_dir.as_str(), rest)
    } else {
        join(engine_root.as_str(), value)
    }
}

/// `name` with `prefix` in front unless it starts with it, and `suffix`
/// behind unless it ends with it; an empty prefix or suffix adds nothing.
pub open spec fn asset_path(name: Seq<char>, prefix: Seq<char>, suffix: Seq<char>) -> Seq<char> {
    let head = if prefix.len() > 0 && !has_prefix(name, prefix) {
        prefix
    } else {
        Seq::empty()
    };
    let tail = if suffix.len() > 0 && !has_suffix(name, suffix) {
        suffix
    } else {
        Seq::empty()
    };
    head + name + tail
}

/// The last component of a path (`Path::file_name`): none for the empty
/// path, the root, and a path ending in `..`.
pub open spec fn file_name_of(p: Seq<char>) -> Option<Seq<char>> {
    let q = trim_slashes_end(p);
    let name = q.skip(last_slash(q) + 1);
    if q.len() == 0 || name == seq!['.', '.'] {
        None
    } else {
        Some(name)
    }
}

/// Index of the last `.` in `s`, or -1.
pub open spec fn last_dot(s: Seq<char>) -> int
    decreases s.len(),
{
    if s.len() == 0 {
        -1
    } else if s.last() == '.' {
        s.len() - 1
    } else {
        last_dot(s.drop_last())
    }
}

/// The file name without its extension (`Path::file_stem`): what comes
/// before the last `.`, unless that `.` is the first character.
pub open spec fn file_stem_of(p: Seq<char>) -> Option<Seq<char>> {
    match file_name_of(p) {
        Some(name) => if last_dot(name) > 0 {
            Some(name.take(last_dot(name)))
        } else {
            Some(name)
        },
        None => None,
    }
}

/// The last component of a path.
pub fn file_name(p: &str) -> (r: Option<String>)
    ensures
        match file_name_of(p@) {
            Some(x) => r is Some && r->0@ == x,
            None => r is None,
        },
{
    let c = chars_of(p);
    let n = c.len();
    assert(c@.take(n as int) =~= c@);
    let qn = trim_end_len(&c, n);
    let ghost q = trim_slashes_end(p@);
    assert(q =~= c@.take(qn as int));
    let mut k = qn;
    proof {
        lemma_last_slash(q);
    }
    while k > 0 && c[k - 1] != '/'
        invariant
            k <= qn <= c@.len(),
            q == c@.take(qn as int),
            last_slash(q) == last_slash(c@.take(k as int)),
        decreases k,
    {
        assert(c@.take(k as int).drop_last() =~= c@.take(k - 1));
        k = k - 1;
    }
    proof {
        if k > 0 {
            assert(last_slash(c@.take(k as int)) == k - 1);
        } else {
            assert(c@.take(0) =~= Seq::<char>::empty());
        }
    }
    let name = string_from_chars(vstd::slice::slice_subrange(c.as_slice(), k, qn));
    assert(name@ =~= q.skip(last_slash(q) + 1));
    proof {
        reveal_strlit("..");
        assert(".."@ =~= seq!['.', '.']);
    }
    if qn == 0 || crate::text::str_eq(name.as_str(), "..") {
        None
    } else {
        Some(name)
    }
}

/// The file name without its extension.
pub fn file_stem(p: &str) -> (r: Option<String>)
    ensures
        match file_stem_of(p@) {
            Some(x) => r is Some && r->0@ == x,
            None => r is None,
        },
{
    match file_name(p) {
        Some(name) => {
            let c = chars_of(name.as_str());
            let mut k = c.len();
            assert(c@.take(c@.len() as int) =~= c@);
            while k > 0 && c[k - 1] != '.'
                invariant
                    k <= c@.len(),
                    c@ == name@,
                    last_dot(c@) == last_dot(c@.take(k as int)),
                decreases k,
            {
                assert(c@.take(k as int).drop_last() =~= c@.take(k - 1));
                k = k - 1;
            }
            assert(c@.take(c@.len() as int) =~= c@);
            proof {
                if k > 0 {
                    assert(last_dot(c@.take(k as int)) == k - 1);
                } else {
                    assert(c@.take(0) =~= Seq::<char>::empty());
                }
            }
            if k > 1 {
                let stem = string_from_chars(vstd::slice::slice_subrange(c.as_slice(), 0, k - 1));
                assert(stem@ =~= name@.take(k - 1));
                Some(stem)
            } else {
                Some(name)
            }
        },
        None => None,
    }
}

/// The game directory's parent and the game's id (its directory name),
/// where the game path has both.
pub fn game_dirs(game_path: &str) -> (r: Option<(String, String)>)
    ensures
        match (parent_path(game_path@), file_name_of(game_path@)) {
            (Some(root), Some(id)) => r is Some && (r->0).0@ == root && (r->0).1@ == id,
            _ => r is None,
        },
{
    match parent(game_path) {
        Some(root) => match file_name(game_path) {
            Some(id) => Some((root, id)),
            None => None,
        },
        None => None,
    }
}

/// Where a pack file that is missing may be found instead: `<stem>_dir.vpk`
/// next to it.
pub open spec fn dir_vpk_of(p: Seq<char>) -> Option<Seq<char>> {
    match file_stem_of(p) {
        Some(stem) => {
            let dir = match parent_path(p) {
                Some(d) => d,
                None => Seq::empty(),
            };
            Some(join_path(dir, stem + "_dir.vpk"@))
        },
        None => None,
    }
}

/// The `_dir.vpk` name of a pack file.
pub fn dir_vpk_path(p: &str) -> (r: Option<String>)
    ensures
        match dir_vpk_of(p@) {
            Some(x) => r is Some && r->0@ == x,
            None => r is None,
        },
{
    match file_stem(p) {
        Some(stem) => {
            let dir = match parent(p) {
                Some(d) => d,
                None => String::new(),
            };
            let mut name = stem;
            name.append("_dir.vpk");
            Some(join(dir.as_str(), name.as_str()))
        },
        None => None,
    }
}

} // verus!
