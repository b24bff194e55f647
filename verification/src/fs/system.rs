//! The file system of a game: the directories and pack files mounted under
//! each search path id, and the rules that fill them from `gameinfo.txt`.
//!
//! Whatever touches the disk (testing that a path exists, listing a
//! directory, opening a pack file, matching file names without regard to
//! case) is done by the caller, which hands the results to the functions
//! here.

use vstd::prelude::*;
use std::sync::Arc;
use crate::ordmap::first_key;
use crate::text::{push_char, str_eq, to_lowercase, unicode_lowercase};
use crate::vmf::block::{split, split_text};
use crate::vmf::parse_ctx::texts;
use super::paths::{asset_path, ends_with, has_prefix, has_suffix, join, join_path, normalize_slashes, normalized,
    starts_with};

verus! {

/// Options for [`FileSystem`] initialization.
#[derive(Debug, Clone)]
pub struct FileSystemOptions {
    /// Subdirectory under `bin/` for platform binaries (e.g. `"win64"`, `"linux64"`).
    pub bin_platform: Option<String>,
}

impl Default for FileSystemOptions {
    fn default() -> (o: Self)
        ensures
            o.bin_platform is None,
    {
        FileSystemOptions { bin_platform: None }
    }
}

/// The items mounted under each search path id, ids in the order of their
/// first use.
#[derive(Debug, Clone)]
pub struct SearchTable<T> {
    pub entries: Vec<(String, Vec<T>)>,
}

/// The content of a table: each id with its items.
pub open spec fn table_view<T>(t: SearchTable<T>) -> Seq<(Seq<char>, Seq<T>)> {
    t.entries@.map_values(|e: (String, Vec<T>)| (e.0@, e.1@))
}

/// The items under `id`, if the id is in use.
pub open spec fn table_get<T>(es: Seq<(Seq<char>, Seq<T>)>, id: Seq<char>) -> Option<Seq<T>> {
    let i = first_key(es, id);
    if i >= 0 {
        Some(es[i].1)
    } else {
        None
    }
}

/// `item` added at the end of the items under `id`; a new id comes last.
pub open spec fn table_push<T>(es: Seq<(Seq<char>, Seq<T>)>, id: Seq<char>, item: T) -> Seq<(Seq<char>, Seq<T>)> {
    let i = first_key(es, id);
    if i >= 0 {
        es.update(i, (id, es[i].1.push(item)))
    } else {
        es.push((id, seq![item]))
    }
}

/// `items` under `id` where the id is not in use yet.
pub open spec fn table_default<T>(es: Seq<(Seq<char>, Seq<T>)>, id: Seq<char>, items: Seq<T>) -> Seq<(Seq<char>, Seq<T>)> {
    if first_key(es, id) >= 0 {
        es
    } else {
        es.push((id, items))
    }
}

impl<T> SearchTable<T> {
    /// An empty table.
    pub fn new() -> (t: Self)
        ensures
            table_view(t).len() == 0,
    {
        SearchTable { entries: Vec::new() }
    }

    /// The position of `id`.
    fn find(&self, id: &str) -> (r: Option<usize>)
        ensures
            r matches Some(i) ==> i == first_key(table_view(*self), id@) && i < self.entries@.len(),
            r is None ==> first_key(table_view(*self), id@) < 0,
    {
        let ghost es = table_view(*self);
        let mut i: usize = 0;
        proof {
            crate::ordmap::lemma_first_key(es, id@);
        }
        while i < self.entries.len()
            invariant
                i <= self.entries@.len(),
                es == table_view(*self),
                forall|j: int| 0 <= j < i ==> es[j].0 != id@,
            decreases self.entries.len() - i,
        {
            if str_eq(self.entries[i].0.as_str(), id) {
                proof {
                    lemma_first_key_at(es, id@, i as int);
                }
                return Some(i);
            }
            i = i + 1;
        }
        proof {
            if first_key(es, id@) >= 0 {
                assert(es[first_key(es, id@)].0 == id@);
            }
        }
        None
    }

    /// The items under `id`.
    pub fn get(&self, id: &str) -> (r: Option<&Vec<T>>)
        ensures
            match table_get(table_view(*self), id@) {
                Some(items) => r is Some && r->0@ == items,
                None => r is None,
            },
    {
        match self.find(id) {
            Some(i) => Some(&self.entries[i].1),
            None => None,
        }
    }

    /// Adds `item` at the end of the items under `id`.
    pub fn push(&mut self, id: &str, item: T)
        ensures
            table_view(*final(self)) == table_push(table_view(*old(self)), id@, item),
    {
        let ghost es = table_view(*self);
        match self.find(id) {
            Some(i) => {
                let ghost old_entries = self.entries@;
                let mut e = self.entries.remove(i);
                e.1.push(item);
                let ghost ne = e;
                self.entries.insert(i, e);
                assert(self.entries@ =~= old_entries.update(i as int, ne));
                proof {
                    crate::ordmap::lemma_first_key(es, id@);
                }
                assert(table_view(*self) =~= table_push(es, id@, item));
            },
            None => {
                let mut v: Vec<T> = Vec::new();
                v.push(item);
                self.entries.push((id.to_string(), v));
                assert(table_view(*self) =~= table_push(es, id@, item));
            },
        }
    }

    /// Puts `items` under `id` if the id is not in use yet.
    pub fn or_insert(&mut self, id: &str, items: Vec<T>)
        ensures
            table_view(*final(self)) == table_default(table_view(*old(self)), id@, items@),
    {
        let ghost es = table_view(*self);
        match self.find(id) {
            Some(_) => {},
            None => {
                self.entries.push((id.to_string(), items));
                assert(table_view(*self) =~= es.push((id@, items@)));
            },
        }
    }
}

/// Where `k` is at `i` and at no earlier position, `i` is its first position.
proof fn lemma_first_key_at<V>(es: Seq<(Seq<char>, V)>, k: Seq<char>, i: int)
    requires
        0 <= i < es.len(),
        es[i].0 == k,
        forall|j: int| 0 <= j < i ==> es[j].0 != k,
    ensures
        first_key(es, k) == i,
    decreases es.len(),
{
    if i < es.len() - 1 {
        lemma_first_key_at(es.drop_last(), k, i);
    } else {
        crate::ordmap::lemma_first_key(es.drop_last(), k);
        if first_key(es.drop_last(), k) >= 0 {
            assert(es.drop_last()[first_key(es.drop_last(), k)] == es[first_key(es.drop_last(), k)]);
        }
    }
}

/// What `(Seq<String>)` holds, as texts, under an id of a table of strings.
pub open spec fn dirs_get(t: SearchTable<String>, id: Seq<char>) -> Option<Seq<Seq<char>>> {
    match table_get(table_view(t), id) {
        Some(v) => Some(texts(v)),
        None => None,
    }
}

/// Core file system representation holding the directories and the pack
/// files mounted under each search path id, relative to a root.
#[derive(Debug)]
pub struct FileSystem<P> {
    root_path: String,
    search_path_dirs: SearchTable<String>,
    search_path_vpks: SearchTable<Arc<P>>,
}

impl<P> Clone for FileSystem<P> {
    fn clone(&self) -> (r: Self)
        ensures
            r.root_view() == self.root_view(),
    {
        FileSystem {
            root_path: self.root_path.clone(),
            search_path_dirs: SearchTable { entries: clone_dir_entries(&self.search_path_dirs.entries) },
            search_path_vpks: self.search_path_vpks.clone(),
        }
    }
}

/// A copy of the entries of a table of directories.
fn clone_dir_entries(es: &Vec<(String, Vec<String>)>) -> (r: Vec<(String, Vec<String>)>)
    ensures
        r@.len() == es@.len(),
{
    let mut r: Vec<(String, Vec<String>)> = Vec::new();
    let mut i: usize = 0;
    while i < es.len()
        invariant
            i <= es@.len(),
            r@.len() == i,
        decreases es.len() - i,
    {
        let mut v: Vec<String> = Vec::new();
        let mut j: usize = 0;
        while j < es[i].1.len()
            invariant
                j <= es@[i as int].1@.len(),
                i < es@.len(),
            decreases es@[i as int].1@.len() - j,
        {
            v.push(es[i].1[j].clone());
            j = j + 1;
        }
        r.push((es[i].0.clone(), v));
        i = i + 1;
    }
    r
}

/// Another handle to the same pack file (`Arc::clone`).
#[verifier::external_body]
fn share<P>(a: &Arc<P>) -> (r: Arc<P>)
    ensures
        r == *a,
{
    Arc::clone(a)
}

/// `item` added under each of `ids`, in order.
pub open spec fn pushed_all<T>(es: Seq<(Seq<char>, Seq<T>)>, ids: Seq<Seq<char>>, item: T) -> Seq<(Seq<char>, Seq<T>)>
    decreases ids.len(),
{
    if ids.len() == 0 {
        es
    } else {
        table_push(pushed_all(es, ids.drop_last(), item), ids.last(), item)
    }
}

/// The path a file is looked up by: lower case, with forward slashes and
/// no leading slash.
pub open spec fn lookup_path(file_path: Seq<char>) -> Seq<char> {
    normalized(unicode_lowercase(file_path), true, false)
}

/// Whether `resolve`, asked for `file` under the directory `dir`, may
/// answer `out`.
pub open spec fn answered<F: Fn(&str, &str) -> Option<String>>(
    resolve: F,
    dir: Seq<char>,
    file: Seq<char>,
    out: Option<String>,
) -> bool {
    exists|a: &str, b: &str| a@ == dir && b@ == file && #[trigger] resolve.ensures((a, b), out)
}

impl<P> FileSystem<P> {
    /// The root that the mounted paths are relative to.
    pub closed spec fn root_view(&self) -> Seq<char> {
        self.root_path@
    }

    /// The directories mounted under each search path id.
    pub closed spec fn dirs_table(&self) -> SearchTable<String> {
        self.search_path_dirs
    }

    /// The pack files mounted under each search path id.
    pub closed spec fn vpks_table(&self) -> SearchTable<Arc<P>> {
        self.search_path_vpks
    }

    /// A file system rooted at `root_path` with nothing mounted.
    pub fn new(root_path: String) -> (fs: Self)
        ensures
            fs.root_view() == root_path@,
            table_view(fs.dirs_table()).len() == 0,
            table_view(fs.vpks_table()).len() == 0,
    {
        FileSystem { root_path, search_path_dirs: SearchTable::new(), search_path_vpks: SearchTable::new() }
    }

    pub fn root_path(&self) -> (r: &String)
        ensures
            r@ == self.root_view(),
    {
        &self.root_path
    }

    pub fn search_path_dirs(&self) -> (r: &SearchTable<String>)
        ensures
            *r == self.dirs_table(),
    {
        &self.search_path_dirs
    }

    pub fn search_path_dirs_mut(&mut self) -> (r: &mut SearchTable<String>)
        ensures
            *r == old(self).dirs_table(),
            final(self).dirs_table() == *final(r),
            final(self).root_view() == old(self).root_view(),
            final(self).vpks_table() == old(self).vpks_table(),
    {
        &mut self.search_path_dirs
    }

    pub fn search_path_vpks(&self) -> (r: &SearchTable<Arc<P>>)
        ensures
            *r == self.vpks_table(),
    {
        &self.search_path_vpks
    }

    pub fn search_path_vpks_mut(&mut self) -> (r: &mut SearchTable<Arc<P>>)
        ensures
            *r == old(self).vpks_table(),
            final(self).vpks_table() == *final(r),
            final(self).root_view() == old(self).root_view(),
            final(self).dirs_table() == old(self).dirs_table(),
    {
        &mut self.search_path_vpks
    }

    /// Mounts a pack file under each of `searches`, in order.
    pub fn mount_pack(&mut self, searches: &Vec<String>, pack: Arc<P>)
        ensures
            table_view(final(self).vpks_table()) == pushed_all(
                table_view(old(self).vpks_table()),
                texts(searches@),
                pack,
            ),
            final(self).dirs_table() == old(self).dirs_table(),
            final(self).root_view() == old(self).root_view(),
    {
        let ghost t0 = table_view(self.search_path_vpks);
        let ghost ids = texts(searches@);
        let mut i: usize = 0;
        assert(ids.take(0) =~= Seq::<Seq<char>>::empty());
        while i < searches.len()
            invariant
                i <= searches@.len(),
                ids == texts(searches@),
                table_view(self.search_path_vpks) == pushed_all(t0, ids.take(i as int), pack),
                self.search_path_dirs == old(self).search_path_dirs,
                self.root_path == old(self).root_path,
            decreases searches.len() - i,
        {
            assert(ids.take(i + 1).drop_last() =~= ids.take(i as int));
            let p = share(&pack);
            self.search_path_vpks.push(searches[i].as_str(), p);
            i = i + 1;
        }
        assert(ids.take(searches@.len() as int) =~= ids);
    }

    /// Formats an asset path, safely preventing duplicated prefixes or suffixes.
    pub fn format_asset_path(name: &str, prefix: &str, suffix: &str) -> (r: String)
        ensures
            r@ == asset_path(name@, prefix@, suffix@),
    {
        let mut path = String::new();
        if !prefix.is_empty() && !starts_with(name, prefix) {
            path.append(prefix);
        }
        path.append(name);
        if !suffix.is_empty() && !ends_with(name, suffix) {
            path.append(suffix);
        }
        path
    }

    /// Looks a file up in the directories mounted under `search_path`, in
    /// order. `resolve` is asked, for each directory joined to the root,
    /// for the file at the lookup path under it (`None` where there is
    /// none); the first answer that is a file is the result, and where
    /// every directory answers `None`, or none is mounted, there is none.
    pub fn find_file<F: Fn(&str, &str) -> Option<String>>(&self, file_path: &str, search_path: &str, resolve: &F) -> (r:
        Option<String>)
        requires
            forall|a: &str, b: &str| resolve.requires((a, b)),
        ensures
            r is Some ==> exists|i: int|
                0 <= i < self.dirs_for(search_path@).len() && #[trigger] answered(
                    *resolve,
                    join_path(self.root_view(), self.dirs_for(search_path@)[i]),
                    lookup_path(file_path@),
                    r,
                ) && self.declined_before(*resolve, search_path@, lookup_path(file_path@), i),
            r is None ==> self.declined_before(
                *resolve,
                search_path@,
                lookup_path(file_path@),
                self.dirs_for(search_path@).len() as int,
            ),
    {
        let lowered = to_lowercase(file_path);
        let file = normalize_slashes(lowered.as_str(), true, false);
        let search = to_lowercase(search_path);
        match self.search_path_dirs.get(search.as_str()) {
            Some(dirs) => {
                let mut i: usize = 0;
                while i < dirs.len()
                    invariant
                        i <= dirs@.len(),
                        texts(dirs@) == self.dirs_for(search_path@),
                        file@ == lookup_path(file_path@),
                        forall|a: &str, b: &str| resolve.requires((a, b)),
                        self.declined_before(*resolve, search_path@, file@, i as int),
                    decreases dirs.len() - i,
                {
                    let base_dir = join(self.root_path.as_str(), dirs[i].as_str());
                    let a = base_dir.as_str();
                    let b = file.as_str();
                    let found = resolve(a, b);
                    proof {
                        assert(self.dirs_for(search_path@)[i as int] == dirs@[i as int]@);
                        assert(resolve.ensures((a, b), found));
                        assert(a@ == join_path(self.root_view(), self.dirs_for(search_path@)[i as int]));
                        assert(answered(
                            *resolve,
                            join_path(self.root_view(), self.dirs_for(search_path@)[i as int]),
                            lookup_path(file_path@),
                            found,
                        ));
                    }
                    if found.is_some() {
                        return found;
                    }
                    proof {
                        assert forall|j: int| 0 <= j < i + 1 implies #[trigger] answered(
                            *resolve,
                            join_path(self.root_view(), self.dirs_for(search_path@)[j]),
                            file@,
                            None,
                        ) by {
                            if j < i {
                                assert(self.declined_before(*resolve, search_path@, file@, i as int));
                            }
                        }
                    }
                    i = i + 1;
                }
                None
            },
            None => None,
        }
    }

    /// Whether each of the first `n` directories mounted under
    /// `search_path` answered `None` for `file`.
    pub open spec fn declined_before<F: Fn(&str, &str) -> Option<String>>(
        &self,
        resolve: F,
        search_path: Seq<char>,
        file: Seq<char>,
        n: int,
    ) -> bool {
        forall|j: int|
            0 <= j < n ==> #[trigger] answered(
                resolve,
                join_path(self.root_view(), self.dirs_for(search_path)[j]),
                file,
                None,
            )
    }

    /// The directories mounted under a search path id, which is matched
    /// in lower case.
    pub open spec fn dirs_for(&self, search_path: Seq<char>) -> Seq<Seq<char>> {
        match dirs_get(self.dirs_table(), unicode_lowercase(search_path)) {
            Some(d) => d,
            None => Seq::empty(),
        }
    }

    /// Finds an asset without reading it: [`FileSystem::find_file`] on the
    /// name with its prefix and suffix added where missing.
    pub fn find_asset<F: Fn(&str, &str) -> Option<String>>(
        &self,
        name: &str,
        prefix: &str,
        suffix: &str,
        search_path: &str,
        resolve: &F,
    ) -> (r: Option<String>)
        requires
            forall|a: &str, b: &str| resolve.requires((a, b)),
        ensures
            r is Some ==> exists|i: int|
                0 <= i < self.dirs_for(search_path@).len() && #[trigger] answered(
                    *resolve,
                    join_path(self.root_view(), self.dirs_for(search_path@)[i]),
                    lookup_path(asset_path(name@, prefix@, suffix@)),
                    r,
                ) && self.declined_before(*resolve, search_path@, lookup_path(asset_path(name@, prefix@, suffix@)), i),
            r is None ==> self.declined_before(
                *resolve,
                search_path@,
                lookup_path(asset_path(name@, prefix@, suffix@)),
                self.dirs_for(search_path@).len() as int,
            ),
    {
        let path = Self::format_asset_path(name, prefix, suffix);
        self.find_file(path.as_str(), search_path, resolve)
    }
}

/// The pack backend that ignores pack files: a file system over it reads
/// only from directories.
pub struct DummyVpk;

} // verus!
