//! The rules that mount the search paths of `gameinfo.txt` into a
//! [`FileSystem`]: how an entry is read, where its directories and pack
//! files go, and the ids that every game has.

use vstd::prelude::*;
use vstd::string::StrSliceExecFns;
use std::sync::Arc;
use crate::ordmap::{first_key, lemma_first_key};
use crate::text::{push_char, str_eq, to_lowercase, unicode_lowercase};
use crate::vmf::block::{split, split_text};
use crate::vmf::parse_ctx::texts;
use super::paths::{ends_with, has_suffix, normalize_slashes, normalized};
use super::system::{FileSystem, SearchTable, table_default, table_get, table_push, table_view};

verus! {

/// The directories of a table, as texts.
pub open spec fn dir_view(t: SearchTable<String>) -> Seq<(Seq<char>, Seq<Seq<char>>)> {
    table_view(t).map_values(|e: (Seq<char>, Seq<String>)| (e.0, texts(e.1)))
}

proof fn lemma_dir_first_key(t: SearchTable<String>, id: Seq<char>)
    ensures
        first_key(dir_view(t), id) == first_key(table_view(t), id),
{
    lemma_first_key_map(table_view(t), id);
}

proof fn lemma_first_key_map(es: Seq<(Seq<char>, Seq<String>)>, id: Seq<char>)
    ensures
        first_key(es.map_values(|e: (Seq<char>, Seq<String>)| (e.0, texts(e.1))), id) == first_key(es, id),
    decreases es.len(),
{
    if es.len() > 0 {
        lemma_first_key_map(es.drop_last(), id);
        assert(es.drop_last().map_values(|e: (Seq<char>, Seq<String>)| (e.0, texts(e.1))) =~= es.map_values(
            |e: (Seq<char>, Seq<String>)| (e.0, texts(e.1)),
        ).drop_last());
    }
}

/// Adds a directory under `id`.
pub fn push_dir(t: &mut SearchTable<String>, id: &str, dir: String)
    ensures
        dir_view(*final(t)) == table_push(dir_view(*old(t)), id@, dir@),
{
    let ghost d0 = dir_view(*t);
    let ghost tv0 = table_view(*t);
    let ghost dv = dir@;
    let ghost dirg = dir;
    proof {
        lemma_dir_first_key(*t, id@);
        lemma_first_key(table_view(*t), id@);
    }
    t.push(id, dir);
    proof {
        let i = first_key(tv0, id@);
        if i >= 0 {
            assert(texts(tv0[i].1.push(dirg)) =~= texts(tv0[i].1).push(dv));
        } else {
            assert(texts(seq![dirg]) =~= seq![dv]);
        }
    }
    assert(dir_view(*t) =~= table_push(d0, id@, dv));
}

proof fn lemma_dir_get(t: SearchTable<String>, id: Seq<char>)
    ensures
        table_get(dir_view(t), id) == match table_get(table_view(t), id) {
            Some(v) => Some(texts(v)),
            None => None,
        },
{
    lemma_dir_first_key(t, id);
    lemma_first_key(table_view(t), id);
}

/// Puts `dirs` under `id` if the id is not in use yet.
pub fn default_dirs(t: &mut SearchTable<String>, id: &str, dirs: Vec<String>)
    ensures
        dir_view(*final(t)) == table_default(dir_view(*old(t)), id@, texts(dirs@)),
{
    let ghost d0 = dir_view(*t);
    let ghost dv = texts(dirs@);
    proof {
        lemma_dir_first_key(*t, id@);
    }
    t.or_insert(id, dirs);
    assert(dir_view(*t) =~= table_default(d0, id@, dv));
}

/// How the path of a search path entry is mounted.
#[derive(Debug, Clone, Copy, PartialEq, Eq)]
pub enum PathKind {
    /// A pack file (`.vpk`).
    Pack,
    /// Every entry of a directory (`dir/*`).
    Glob,
    /// A directory.
    Dir,
}

/// A search path entry of `gameinfo.txt`, read: the ids it is mounted
/// under, its path, and how the path is mounted.
#[derive(Debug)]
pub struct SearchPlan {
    pub searches: Vec<String>,
    pub path: String,
    pub kind: PathKind,
}

/// The ids of an entry: its key in lower case, split at `+`.
pub open spec fn plan_searches(key: Seq<char>) -> Seq<Seq<char>> {
    split(unicode_lowercase(key), '+')
}

/// The path of an entry: a single trailing `.` dropped (not that of a
/// trailing `..`), and forward slashes.
pub open spec fn plan_path(value: Seq<char>) -> Seq<char> {
    let p = if has_suffix(value, seq!['.']) && !has_suffix(value, seq!['.', '.']) {
        value.drop_last()
    } else {
        value
    };
    normalized(p, false, false)
}

/// How a path is mounted: a pack file where it ends in `.vpk`, a
/// directory's entries where it ends in `/*`, a directory otherwise.
pub open spec fn plan_kind(path: Seq<char>) -> PathKind {
    if has_suffix(path, ".vpk"@) {
        PathKind::Pack
    } else if has_suffix(path, seq!['/', '*']) {
        PathKind::Glob
    } else {
        PathKind::Dir
    }
}

/// The id every game path is also mounted under as a binary directory.
pub open spec fn game_id_text() -> Seq<char> {
    "game"@
}

impl SearchPlan {
    /// Reads a search path entry `key` / `value` of `gameinfo.txt`.
    pub fn new(key: &str, value: &str) -> (p: SearchPlan)
        ensures
            texts(p.searches@) == plan_searches(key@),
            p.path@ == plan_path(value@),
            p.kind == plan_kind(p.path@),
    {
        let lowered = to_lowercase(key);
        let searches = split_text(lowered.as_str(), '+');
        assert(texts(searches@) =~= searches@.map_values(|p: String| p@));
        proof {
            reveal_strlit(".");
            reveal_strlit("..");
            assert("."@ =~= seq!['.']);
            assert(".."@ =~= seq!['.', '.']);
        }
        let v: &str = if ends_with(value, ".") && !ends_with(value, "..") {
            let n = value.unicode_len();
            let w = value.substring_char(0, n - 1);
            assert(w@ =~= value@.drop_last());
            w
        } else {
            value
        };
        let path = normalize_slashes(v, false, false);
        proof {
            reveal_strlit("/*");
            assert("/*"@ =~= seq!['/', '*']);
        }
        let kind = if ends_with(path.as_str(), ".vpk") {
            PathKind::Pack
        } else if ends_with(path.as_str(), "/*") {
            PathKind::Glob
        } else {
            PathKind::Dir
        };
        SearchPlan { searches, path, kind }
    }

    /// The directory whose entries a `dir/*` path mounts.
    pub fn glob_dir(&self) -> (d: String)
        requires
            self.kind == PathKind::Glob,
            self.kind == plan_kind(self.path@),
        ensures
            d@ == self.path@.take(self.path@.len() - 2),
    {
        let c = crate::text::chars_of(self.path.as_str());
        let n = c.len();
        let out = vstd::slice::slice_subrange(c.as_slice(), 0, n - 2);
        crate::text::string_from_chars(out)
    }
}

/// The directories after a directory path was found under `search`: the
/// path under `search`; for the `game` id also `<path>/bin` under
/// `gamebin`, and for the first entry of `gameinfo.txt` the path under
/// `mod`.
pub open spec fn dir_mounted(d: Seq<(Seq<char>, Seq<Seq<char>>)>, search: Seq<char>, path: Seq<char>, first: bool) -> Seq<
    (Seq<char>, Seq<Seq<char>>),
> {
    let d1 = table_push(d, search, path);
    if search == game_id_text() {
        let d2 = table_push(d1, "gamebin"@, path + "/bin"@);
        if first {
            table_push(d2, "mod"@, path)
        } else {
            d2
        }
    } else {
        d1
    }
}

proof fn lemma_first_key_same_keys<T>(a: Seq<(Seq<char>, Seq<T>)>, b: Seq<(Seq<char>, Seq<T>)>, k: Seq<char>)
    requires
        a.len() == b.len(),
        forall|i: int| 0 <= i < a.len() ==> (#[trigger] a[i]).0 == b[i].0,
    ensures
        first_key(a, k) == first_key(b, k),
    decreases a.len(),
{
    if a.len() > 0 {
        assert forall|i: int| 0 <= i < a.drop_last().len() implies (#[trigger] a.drop_last()[i]).0 == b.drop_last()[i].0 by {
            assert(a.drop_last()[i] == a[i] && b.drop_last()[i] == b[i]);
        }
        lemma_first_key_same_keys(a.drop_last(), b.drop_last(), k);
    }
}

/// Adding an item under one id leaves the items under every other id as
/// they were, and adds it at the end of those under its own id.
pub proof fn lemma_table_push_get<T>(es: Seq<(Seq<char>, Seq<T>)>, id: Seq<char>, item: T, k: Seq<char>)
    ensures
        k != id ==> table_get(table_push(es, id, item), k) == table_get(es, k),
        k == id ==> table_get(table_push(es, id, item), k) == Some(
            match table_get(es, k) {
                Some(v) => v.push(item),
                None => seq![item],
            },
        ),
{
    lemma_first_key(es, id);
    lemma_first_key(es, k);
    let i = first_key(es, id);
    let r = table_push(es, id, item);
    if i >= 0 {
        assert forall|j: int| 0 <= j < es.len() implies (#[trigger] es[j]).0 == r[j].0 by {}
        lemma_first_key_same_keys(es, r, k);
    } else {
        assert(r.drop_last() =~= es);
    }
}

/// Mounting a directory of an entry after the first of `gameinfo.txt`
/// leaves the directories under `mod` as they were (unless it is mounted
/// under `mod` itself); mounting the first `game` entry adds its path
/// last under `mod`.
pub proof fn lemma_mod_only_from_first(d: Seq<(Seq<char>, Seq<Seq<char>>)>, search: Seq<char>, path: Seq<char>)
    ensures
        search != "mod"@ ==> table_get(dir_mounted(d, search, path, false), "mod"@) == table_get(d, "mod"@),
        search == game_id_text() ==> table_get(dir_mounted(d, search, path, true), "mod"@) == Some(
            match table_get(d, "mod"@) {
                Some(v) => v.push(path),
                None => seq![path],
            },
        ),
{
    reveal_strlit("game");
    reveal_strlit("gamebin");
    reveal_strlit("mod");
    let d1 = table_push(d, search, path);
    let d2 = table_push(d1, "gamebin"@, path + "/bin"@);
    lemma_table_push_get(d, search, path, "mod"@);
    lemma_table_push_get(d1, "gamebin"@, path + "/bin"@, "mod"@);
    lemma_table_push_get(d2, "mod"@, path, "mod"@);
    assert("gamebin"@ != "mod"@) by {
        assert("gamebin"@.len() != "mod"@.len());
    }
    if search == game_id_text() {
        assert(game_id_text() != "mod"@) by {
            assert(game_id_text().len() != "mod"@.len());
        }
    }
}

/// Mounting a directory adds its path last under its search id; for the
/// `game` id it also adds `<path>/bin` last under `gamebin`; every other id
/// (apart from `mod`) keeps its directories.
pub proof fn lemma_dir_mounted_ids(
    d: Seq<(Seq<char>, Seq<Seq<char>>)>,
    search: Seq<char>,
    path: Seq<char>,
    first: bool,
    k: Seq<char>,
)
    requires
        search != "gamebin"@,
        search != "mod"@,
    ensures
        table_get(dir_mounted(d, search, path, first), search) == Some(
            match table_get(d, search) {
                Some(v) => v.push(path),
                None => seq![path],
            },
        ),
        search == game_id_text() ==> table_get(dir_mounted(d, search, path, first), "gamebin"@) == Some(
            match table_get(d, "gamebin"@) {
                Some(v) => v.push(path + "/bin"@),
                None => seq![path + "/bin"@],
            },
        ),
        k != search && k != "gamebin"@ && k != "mod"@ ==> table_get(dir_mounted(d, search, path, first), k)
            == table_get(d, k),
{
    reveal_strlit("game");
    reveal_strlit("gamebin");
    reveal_strlit("mod");
    let d1 = table_push(d, search, path);
    let d2 = table_push(d1, "gamebin"@, path + "/bin"@);
    lemma_table_push_get(d, search, path, search);
    lemma_table_push_get(d1, "gamebin"@, path + "/bin"@, search);
    lemma_table_push_get(d2, "mod"@, path, search);
    lemma_table_push_get(d, search, path, "gamebin"@);
    lemma_table_push_get(d1, "gamebin"@, path + "/bin"@, "gamebin"@);
    lemma_table_push_get(d2, "mod"@, path, "gamebin"@);
    lemma_table_push_get(d, search, path, k);
    lemma_table_push_get(d1, "gamebin"@, path + "/bin"@, k);
    lemma_table_push_get(d2, "mod"@, path, k);
    assert("gamebin"@ != "mod"@) by {
        assert("gamebin"@.len() != "mod"@.len());
    }
}

/// The ids that every game has, after the entries of `gameinfo.txt`:
/// `executable_path` gets `bin/<platform>` where that directory was found,
/// then `bin` and the root; `platform`, `default_write_path`, `logdir` and
/// `config` get their usual directories where nothing is mounted under
/// them, and `game` gets `platform` where it lacks it.
pub open spec fn with_defaults(d: Seq<(Seq<char>, Seq<Seq<char>>)>, game_id: Seq<char>, platform_bin: Option<Seq<char>>) -> Seq<
    (Seq<char>, Seq<Seq<char>>),
> {
    let d1 = table_default(d, "executable_path"@, Seq::empty());
    let d2 = match platform_bin {
        Some(plat) => table_push(d1, "executable_path"@, "bin/"@ + plat),
        None => d1,
    };
    let d3 = table_push(table_push(d2, "executable_path"@, "bin"@), "executable_path"@, Seq::empty());
    let d4 = table_default(d3, "platform"@, seq!["platform"@]);
    let d5 = match table_get(d4, game_id_text()) {
        Some(g) => if g.contains("platform"@) {
            d4
        } else {
            table_push(d4, game_id_text(), "platform"@)
        },
        None => d4,
    };
    let d6 = table_default(d5, "default_write_path"@, seq![game_id]);
    let d7 = table_default(d6, "logdir"@, seq![game_id]);
    table_default(d7, "config"@, seq!["platform/config"@])
}

/// A list holding one string.
fn one(s: &str) -> (v: Vec<String>)
    ensures
        texts(v@) == seq![s@],
{
    let mut v: Vec<String> = Vec::new();
    v.push(s.to_string());
    assert(texts(v@) =~= seq![s@]);
    v
}

/// Whether `s` is among `v`.
fn contains_text(v: &Vec<String>, s: &str) -> (r: bool)
    ensures
        r == texts(v@).contains(s@),
{
    let mut i: usize = 0;
    while i < v.len()
        invariant
            i <= v@.len(),
            forall|j: int| 0 <= j < i ==> v@[j]@ != s@,
        decreases v.len() - i,
    {
        if str_eq(v[i].as_str(), s) {
            assert(texts(v@)[i as int] == s@);
            return true;
        }
        i = i + 1;
    }
    proof {
        if texts(v@).contains(s@) {
            let j = choose|j: int| 0 <= j < texts(v@).len() && texts(v@)[j] == s@;
            assert(v@[j]@ == s@);
        }
    }
    false
}

impl<P> FileSystem<P> {
    /// Mounts a directory path of the entry at position `index` of
    /// `gameinfo.txt` under `search`, once the directory was found.
    pub fn mount_dir(&mut self, search: &str, path: &str, index: usize)
        ensures
            dir_view(final(self).dirs_table()) == dir_mounted(dir_view(old(self).dirs_table()), search@, path@, index == 0),
            final(self).root_view() == old(self).root_view(),
            final(self).vpks_table() == old(self).vpks_table(),
    {
        let dirs = self.search_path_dirs_mut();
        push_dir(dirs, search, path.to_string());
        proof {
            reveal_strlit("game");
        }
        if str_eq(search, "game") {
            let mut bin = path.to_string();
            bin.append("/bin");
            push_dir(dirs, "gamebin", bin);
            if index == 0 {
                push_dir(dirs, "mod", path.to_string());
            }
        }
    }

    /// Mounts an entry of a directory listed by a `dir/*` path under
    /// `search`.
    pub fn mount_glob_entry(&mut self, search: &str, entry: &str)
        ensures
            dir_view(final(self).dirs_table()) == table_push(
                dir_view(old(self).dirs_table()),
                search@,
                normalized(entry@, false, false),
            ),
            final(self).root_view() == old(self).root_view(),
            final(self).vpks_table() == old(self).vpks_table(),
    {
        let dirs = self.search_path_dirs_mut();
        push_dir(dirs, search, normalize_slashes(entry, false, false));
    }

    /// Adds the ids that every game has, once all entries of
    /// `gameinfo.txt` are mounted. `platform_bin` is the platform
    /// subdirectory of `bin` where that directory was found.
    pub fn add_defaults(&mut self, game_id: &str, platform_bin: Option<&str>)
        ensures
            dir_view(final(self).dirs_table()) == with_defaults(
                dir_view(old(self).dirs_table()),
                game_id@,
                match platform_bin {
                    Some(p) => Some(p@),
                    None => None,
                },
            ),
            final(self).root_view() == old(self).root_view(),
            final(self).vpks_table() == old(self).vpks_table(),
    {
        let dirs = self.search_path_dirs_mut();
        default_dirs(dirs, "executable_path", Vec::new());
        assert(texts(Seq::<String>::empty()) =~= Seq::<Seq<char>>::empty());
        match platform_bin {
            Some(plat) => {
                let mut p = String::new();
                p.append("bin/");
                p.append(plat);
                push_dir(dirs, "executable_path", p);
            },
            None => {},
        }
        push_dir(dirs, "executable_path", "bin".to_string());
        push_dir(dirs, "executable_path", String::new());
        default_dirs(dirs, "platform", one("platform"));
        proof {
            lemma_dir_get(*dirs, "game"@);
        }
        match dirs.get("game") {
            Some(g) => {
                if !contains_text(g, "platform") {
                    push_dir(dirs, "game", "platform".to_string());
                }
            },
            None => {},
        }
        default_dirs(dirs, "default_write_path", one(game_id));
        default_dirs(dirs, "logdir", one(game_id));
        default_dirs(dirs, "config", one("platform/config"));
    }
}

/// Whether `a` comes no later than `b` in the order of their characters'
/// code points, which is the order of their UTF-8 bytes and so the order
/// in which `Path` sorts file names of one directory.
pub open spec fn name_le(a: Seq<char>, b: Seq<char>) -> bool
    decreases a.len(),
{
    if a.len() == 0 {
        true
    } else if b.len() == 0 {
        false
    } else if (a[0] as u32) != (b[0] as u32) {
        (a[0] as u32) < (b[0] as u32)
    } else {
        name_le(a.drop_first(), b.drop_first())
    }
}

proof fn lemma_name_total(a: Seq<char>, b: Seq<char>)
    ensures
        name_le(a, b) || name_le(b, a),
    decreases a.len(),
{
    if a.len() > 0 && b.len() > 0 && (a[0] as u32) == (b[0] as u32) {
        lemma_name_total(a.drop_first(), b.drop_first());
    }
}

proof fn lemma_name_trans(a: Seq<char>, b: Seq<char>, c: Seq<char>)
    requires
        name_le(a, b),
        name_le(b, c),
    ensures
        name_le(a, c),
    decreases a.len(),
{
    if a.len() > 0 && b.len() > 0 && c.len() > 0 && (a[0] as u32) == (b[0] as u32) && (b[0] as u32) == (c[0] as u32) {
        lemma_name_trans(a.drop_first(), b.drop_first(), c.drop_first());
    }
}

/// Whether names are in order.
pub open spec fn names_sorted(s: Seq<Seq<char>>) -> bool {
    forall|i: int, j: int| 0 <= i < j < s.len() ==> name_le(#[trigger] s[i], #[trigger] s[j])
}

/// Where `x` goes among the names `s`: before the first name that comes
/// later than it.
pub open spec fn insert_pos(s: Seq<Seq<char>>, x: Seq<char>) -> int
    decreases s.len(),
{
    if s.len() == 0 {
        0
    } else if name_le(s[0], x) {
        1 + insert_pos(s.drop_first(), x)
    } else {
        0
    }
}

proof fn lemma_insert_pos(s: Seq<Seq<char>>, x: Seq<char>)
    ensures
        0 <= insert_pos(s, x) <= s.len(),
        forall|j: int| 0 <= j < insert_pos(s, x) ==> name_le(#[trigger] s[j], x),
        insert_pos(s, x) < s.len() ==> !name_le(s[insert_pos(s, x)], x),
    decreases s.len(),
{
    if s.len() > 0 && name_le(s[0], x) {
        lemma_insert_pos(s.drop_first(), x);
        assert forall|j: int| 0 <= j < insert_pos(s, x) implies name_le(#[trigger] s[j], x) by {
            if j > 0 {
                assert(s[j] == s.drop_first()[j - 1]);
            }
        }
        if insert_pos(s, x) < s.len() {
            assert(s[insert_pos(s, x)] == s.drop_first()[insert_pos(s.drop_first(), x)]);
        }
    }
}

/// The names `s` with `x` inserted in order.
pub open spec fn insert_name(s: Seq<Seq<char>>, x: Seq<char>) -> Seq<Seq<char>> {
    s.insert(insert_pos(s, x), x)
}

/// Whether a file name is that of the directory file of a pack
/// (`*_dir.vpk`, without regard to case).
pub open spec fn is_dir_archive(name: Seq<char>) -> bool {
    has_suffix(unicode_lowercase(name), "_dir.vpk"@)
}

/// The directory files of packs among `names`, in the order of their
/// names: each inserted in turn where it belongs.
pub open spec fn archives_of(names: Seq<Seq<char>>) -> Seq<Seq<char>>
    decreases names.len(),
{
    if names.len() == 0 {
        Seq::empty()
    } else {
        let a = archives_of(names.drop_last());
        if is_dir_archive(names.last()) {
            insert_name(a, names.last())
        } else {
            a
        }
    }
}

/// Inserting a name where it belongs keeps names in order.
pub proof fn lemma_insert_sorted(s: Seq<Seq<char>>, x: Seq<char>)
    requires
        names_sorted(s),
    ensures
        names_sorted(insert_name(s, x)),
{
    lemma_insert_pos(s, x);
    let k = insert_pos(s, x);
    let r = insert_name(s, x);
    assert forall|i: int, j: int| 0 <= i < j < r.len() implies name_le(#[trigger] r[i], #[trigger] r[j]) by {
        if k < s.len() {
            lemma_name_total(s[k], x);
        }
        if j < k {
            assert(r[i] == s[i] && r[j] == s[j]);
        } else if j == k {
            assert(r[i] == s[i]);
        } else if i == k {
            assert(r[j] == s[j - 1]);
            if j - 1 > k {
                lemma_name_trans(x, s[k], s[j - 1]);
            }
        } else if i < k {
            assert(r[i] == s[i] && r[j] == s[j - 1]);
        } else {
            assert(r[i] == s[i - 1] && r[j] == s[j - 1]);
        }
    }
}

/// The directory files of packs come out in order, each once for each
/// time it is given, and nothing else comes out.
pub proof fn lemma_archives_sorted(names: Seq<Seq<char>>)
    ensures
        names_sorted(archives_of(names)),
        archives_of(names).to_multiset() == names.filter(|n: Seq<char>| is_dir_archive(n)).to_multiset(),
    decreases names.len(),
{
    broadcast use vstd::seq_lib::group_seq_properties;
    if names.len() > 0 {
        lemma_archives_sorted(names.drop_last());
        let a = archives_of(names.drop_last());
        let f = |n: Seq<char>| is_dir_archive(n);
        assert(names.drop_last().push(names.last()) =~= names);
        reveal(Seq::filter);
        assert(names.filter(f) == if f(names.last()) {
            names.drop_last().filter(f).push(names.last())
        } else {
            names.drop_last().filter(f)
        });
        if is_dir_archive(names.last()) {
            lemma_insert_sorted(a, names.last());
            lemma_insert_pos(a, names.last());
            vstd::seq_lib::to_multiset_insert(a, insert_pos(a, names.last()), names.last());
            vstd::seq_lib::to_multiset_build(names.drop_last().filter(f), names.last());
        }
    } else {
        assert(names.filter(|n: Seq<char>| is_dir_archive(n)) =~= Seq::<Seq<char>>::empty());
    }
}

/// Whether `a` comes no later than `b` (`name_le`).
fn name_le_exec(a: &str, b: &str) -> (r: bool)
    ensures
        r == name_le(a@, b@),
{
    let x = crate::text::chars_of(a);
    let y = crate::text::chars_of(b);
    let mut i: usize = 0;
    assert(x@.skip(0) =~= x@);
    assert(y@.skip(0) =~= y@);
    while i < x.len() && i < y.len()
        invariant
            i <= x@.len(),
            i <= y@.len(),
            x@ == a@,
            y@ == b@,
            name_le(a@, b@) == name_le(x@.skip(i as int), y@.skip(i as int)),
        decreases x.len() - i,
    {
        let cx = x[i] as u32;
        let cy = y[i] as u32;
        if cx != cy {
            assert(x@.skip(i as int)[0] == x@[i as int]);
            assert(y@.skip(i as int)[0] == y@[i as int]);
            return cx < cy;
        }
        assert(x@.skip(i as int).drop_first() =~= x@.skip(i + 1));
        assert(y@.skip(i as int).drop_first() =~= y@.skip(i + 1));
        i = i + 1;
    }
    i == x.len()
}

/// The directory files of packs among the file names of a directory
/// (`*_dir.vpk`, without regard to case), sorted as their paths are.
pub fn dir_archives(names: &Vec<String>) -> (r: Vec<String>)
    ensures
        texts(r@) == archives_of(texts(names@)),
{
    let ghost ns = texts(names@);
    let mut out: Vec<String> = Vec::new();
    let mut i: usize = 0;
    assert(ns.take(0) =~= Seq::<Seq<char>>::empty());
    assert(texts(out@) =~= Seq::<Seq<char>>::empty());
    while i < names.len()
        invariant
            i <= names@.len(),
            ns == texts(names@),
            texts(out@) == archives_of(ns.take(i as int)),
        decreases names.len() - i,
    {
        assert(ns.take(i + 1).drop_last() =~= ns.take(i as int));
        assert(ns.take(i + 1).last() == names@[i as int]@);
        let low = to_lowercase(names[i].as_str());
        if ends_with(low.as_str(), "_dir.vpk") {
            let ghost a = texts(out@);
            let x = names[i].as_str();
            let mut k: usize = 0;
            assert(a.skip(0) =~= a);
            while k < out.len() && name_le_exec(out[k].as_str(), x)
                invariant
                    k <= out@.len(),
                    a == texts(out@),
                    insert_pos(a, x@) == k + insert_pos(a.skip(k as int), x@),
                decreases out.len() - k,
            {
                assert(a.skip(k as int)[0] == a[k as int]);
                assert(a.skip(k as int).drop_first() =~= a.skip(k + 1));
                k = k + 1;
            }
            proof {
                if k < a.len() {
                    assert(a.skip(k as int)[0] == a[k as int]);
                }
            }
            assert(insert_pos(a, x@) == k);
            out.insert(k, names[i].clone());
            assert(texts(out@) =~= a.insert(k as int, x@));
        }
        i = i + 1;
    }
    assert(ns.take(names@.len() as int) =~= ns);
    out
}

/// The pack file that a pack entry opens, given whether its path exists
/// and, where it does not, the `_dir.vpk` name of that path
/// ([`dir_vpk_path`](super::paths::dir_vpk_path)) and whether that exists:
/// the path itself where it exists, else the `_dir.vpk` name where that
/// exists, else none (the entry is passed over).
pub fn pack_to_open(full: String, full_exists: bool, alt: Option<String>, alt_exists: bool) -> (r: Option<String>)
    ensures
        full_exists ==> (r matches Some(x) && x@ == full@),
        !full_exists ==> match alt {
            Some(a) => if alt_exists {
                (r matches Some(x) && x@ == a@)
            } else {
                r is None
            },
            None => r is None,
        },
{
    if full_exists {
        Some(full)
    } else {
        match alt {
            Some(a) => if alt_exists {
                Some(a)
            } else {
                None
            },
            None => None,
        }
    }
}

/// Whether a game whose `gameinfo.txt` lists `n` search paths is mounted
/// at all: with none listed, the file system stays empty, without even the
/// default search paths.
pub fn mounts_search_paths(n: usize) -> (r: bool)
    ensures
        r == (n > 0),
{
    n > 0
}

} // verus!
