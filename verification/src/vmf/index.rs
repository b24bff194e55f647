//! Addressing the entities of a map file, and an index of their names.

use vstd::prelude::*;
use crate::fs::paths::{has_prefix, starts_with};
use crate::ordmap::{first_key, lemma_first_key};
use crate::text::str_eq;
use crate::vmf::entities::{Entity, EntityView, pair_value};
use crate::vmf::file::VmfFile;

verus! {

/// The place of an entity in a map file: in the visible or in the hidden
/// entities, and its index there. A place stays valid only while no entity
/// is inserted, removed or moved.
#[derive(Debug, Clone, Copy, PartialEq, Eq, Structural, Hash, PartialOrd, Ord)]
pub struct EntId {
    /// Whether the entity is one of the hidden ones.
    pub hidden: bool,
    pub idx: u32,
}

/// The entity at a place, if there is one.
pub open spec fn entity_at(f: VmfFile, id: EntId) -> Option<Entity> {
    let list = if id.hidden { f.hiddens.0@ } else { f.entities.0@ };
    if (id.idx as int) < list.len() {
        Some(list[id.idx as int])
    } else {
        None
    }
}

/// Two files that agree in all but their entity lists.
pub open spec fn same_but_entities(a: VmfFile, b: VmfFile) -> bool {
    &&& a.path == b.path
    &&& a.versioninfo == b.versioninfo
    &&& a.visgroups == b.visgroups
    &&& a.viewsettings == b.viewsettings
    &&& a.world == b.world
    &&& a.cameras == b.cameras
    &&& a.cordons == b.cordons
    &&& a.extra_blocks == b.extra_blocks
    &&& a.warnings == b.warnings
    &&& a.suppressed_warnings == b.suppressed_warnings
}

/// Every entity of a file with its place: the visible ones in order, then
/// the hidden ones in order.
pub open spec fn placed(f: VmfFile) -> Seq<(EntId, EntityView)> {
    Seq::new(f.entities.0@.len(), |i: int| (EntId { hidden: false, idx: i as u32 }, f.entities.0@[i]@)) + Seq::new(
        f.hiddens.0@.len(),
        |i: int| (EntId { hidden: true, idx: i as u32 }, f.hiddens.0@[i]@),
    )
}

/// The places of a file's entities with their names (`targetname`).
pub open spec fn named_places(f: VmfFile) -> Seq<(EntId, Option<Seq<char>>)> {
    placed(f).map_values(|p: (EntId, EntityView)| (p.0, pair_value(p.1.key_values, "targetname"@)))
}

/// Every place that the entities of a file are listed at addresses the
/// entity listed with it, and no other place addresses an entity (while the
/// lists are short enough for a `u32` to count).
pub proof fn lemma_places_address_entities(f: VmfFile)
    requires
        f.entities.0@.len() <= u32::MAX,
        f.hiddens.0@.len() <= u32::MAX,
    ensures
        forall|i: int|
            0 <= i < placed(f).len() ==> (entity_at(f, (#[trigger] placed(f)[i]).0) matches Some(e) && e@
                == placed(f)[i].1),
        forall|id: EntId|
            (#[trigger] entity_at(f, id)) is Some ==> exists|i: int| 0 <= i < placed(f).len() && placed(f)[i].0 == id,
{
    let n = f.entities.0@.len();
    assert forall|i: int| 0 <= i < placed(f).len() implies (entity_at(f, (#[trigger] placed(f)[i]).0) matches Some(e)
        && e@ == placed(f)[i].1) by {
        if i < n {
            assert(placed(f)[i].0 == EntId { hidden: false, idx: i as u32 });
        } else {
            assert(placed(f)[i].0 == EntId { hidden: true, idx: (i - n) as u32 });
        }
    }
    assert forall|id: EntId| (#[trigger] entity_at(f, id)) is Some implies exists|i: int|
        0 <= i < placed(f).len() && placed(f)[i].0 == id by {
        if id.hidden {
            let i = n + id.idx as int;
            assert(placed(f)[i].0 == id);
        } else {
            let i = id.idx as int;
            assert(placed(f)[i].0 == id);
        }
    }
}

impl VmfFile {
    /// The entity at a place, or `None` past the end of its list.
    pub fn entity(&self, id: EntId) -> (r: Option<&Entity>)
        ensures
            match entity_at(*self, id) {
                Some(e) => r is Some && *r->0 == e,
                None => r is None,
            },
    {
        let list = if id.hidden {
            &self.hiddens.0
        } else {
            &self.entities.0
        };
        let i = id.idx as usize;
        if i < list.len() {
            Some(&list[i])
        } else {
            None
        }
    }

    /// The entity at a place, to change it; `None` past the end of its list.
    /// Nothing else in the file changes.
    pub fn entity_mut(&mut self, id: EntId) -> (r: Option<&mut Entity>)
        ensures
            entity_at(*old(self), id) is None ==> r is None && *final(self) == *old(self),
            entity_at(*old(self), id) is Some ==> r is Some && *r->0 == entity_at(*old(self), id)->0,
            same_but_entities(*final(self), *old(self)),
            r is Some ==> final(self).hiddens.0@ == (if id.hidden {
                old(self).hiddens.0@.update(id.idx as int, *final(r->0))
            } else {
                old(self).hiddens.0@
            }),
            r is Some ==> final(self).entities.0@ == (if id.hidden {
                old(self).entities.0@
            } else {
                old(self).entities.0@.update(id.idx as int, *final(r->0))
            }),
    {
        let i = id.idx as usize;
        if id.hidden {
            if i < self.hiddens.0.len() {
                Some(&mut self.hiddens.0[i])
            } else {
                None
            }
        } else {
            if i < self.entities.0.len() {
                Some(&mut self.entities.0[i])
            } else {
                None
            }
        }
    }

    /// The entities with their places: the visible ones, then the hidden ones.
    pub fn iter_entities(&self) -> (r: Vec<(EntId, &Entity)>)
        ensures
            r@.len() == placed(*self).len(),
            forall|i: int|
                0 <= i < r@.len() ==> (#[trigger] r@[i]).0 == placed(*self)[i].0 && r@[i].1@ == placed(*self)[i].1,
    {
        let ghost pl = placed(*self);
        let mut r: Vec<(EntId, &Entity)> = Vec::new();
        let mut i: usize = 0;
        while i < self.entities.0.len()
            invariant
                i <= self.entities.0@.len(),
                pl == placed(*self),
                r@.len() == i,
                forall|k: int| 0 <= k < i ==> (#[trigger] r@[k]).0 == pl[k].0 && r@[k].1@ == pl[k].1,
            decreases self.entities.0.len() - i,
        {
            r.push((EntId { hidden: false, idx: i as u32 }, &self.entities.0[i]));
            i = i + 1;
        }
        let n = self.entities.0.len();
        let mut j: usize = 0;
        while j < self.hiddens.0.len()
            invariant
                j <= self.hiddens.0@.len(),
                n == self.entities.0@.len(),
                pl == placed(*self),
                r@.len() == n + j,
                forall|k: int| 0 <= k < n + j ==> (#[trigger] r@[k]).0 == pl[k].0 && r@[k].1@ == pl[k].1,
            decreases self.hiddens.0.len() - j,
        {
            r.push((EntId { hidden: true, idx: j as u32 }, &self.hiddens.0[j]));
            j = j + 1;
        }
        r
    }
}

/// The places in `items` whose name is `n`, in order.
pub open spec fn places_named(items: Seq<(EntId, Option<Seq<char>>)>, n: Seq<char>) -> Seq<EntId>
    decreases items.len(),
{
    if items.len() == 0 {
        Seq::empty()
    } else {
        places_named(items.drop_last(), n) + if items.last().1 == Some(n) {
            seq![items.last().0]
        } else {
            Seq::empty()
        }
    }
}

/// The index after one more named place: a name seen before gets the place
/// added to its list, a new name gets a list of its own at the end.
pub open spec fn index_step(m: Seq<(Seq<char>, Seq<EntId>)>, item: (EntId, Option<Seq<char>>)) -> Seq<
    (Seq<char>, Seq<EntId>),
> {
    match item.1 {
        Some(n) => {
            let k = first_key(m, n);
            if k >= 0 {
                m.update(k, (n, m[k].1.push(item.0)))
            } else {
                m.push((n, seq![item.0]))
            }
        },
        None => m,
    }
}

/// The index of the named places `items`.
pub open spec fn index_of(items: Seq<(EntId, Option<Seq<char>>)>) -> Seq<(Seq<char>, Seq<EntId>)>
    decreases items.len(),
{
    if items.len() == 0 {
        Seq::empty()
    } else {
        index_step(index_of(items.drop_last()), items.last())
    }
}

/// The places listed under a name, none where the name is absent.
pub open spec fn listed(m: Seq<(Seq<char>, Seq<EntId>)>, n: Seq<char>) -> Seq<EntId> {
    let k = first_key(m, n);
    if k >= 0 {
        m[k].1
    } else {
        Seq::empty()
    }
}

/// The places listed under the names that start with `p`, name by name.
pub open spec fn listed_with_prefix(m: Seq<(Seq<char>, Seq<EntId>)>, p: Seq<char>) -> Seq<EntId>
    decreases m.len(),
{
    if m.len() == 0 {
        Seq::empty()
    } else {
        listed_with_prefix(m.drop_last(), p) + if has_prefix(m.last().0, p) {
            m.last().1
        } else {
            Seq::empty()
        }
    }
}

/// No name is listed twice.
pub open spec fn names_unique(m: Seq<(Seq<char>, Seq<EntId>)>) -> bool {
    forall|i: int, j: int| 0 <= i < j < m.len() ==> #[trigger] m[i].0 != #[trigger] m[j].0
}

proof fn lemma_unique_key(m: Seq<(Seq<char>, Seq<EntId>)>, n: Seq<char>, i: int)
    requires
        names_unique(m),
        0 <= i < m.len(),
        m[i].0 == n,
    ensures
        first_key(m, n) == i,
{
    lemma_first_key(m, n);
    let k = first_key(m, n);
    if k < 0 {
        assert(m[i].0 != n);
    } else if k < i {
        assert(m[k].0 != m[i].0);
    } else if k > i {
        assert(m[i].0 != n);
    }
}

/// A targetname index lists, under each name, every place whose entity has
/// that name, in the order of the places; and names no name twice.
pub proof fn lemma_index_lists_every_place(items: Seq<(EntId, Option<Seq<char>>)>, n: Seq<char>)
    ensures
        names_unique(index_of(items)),
        listed(index_of(items), n) == places_named(items, n),
    decreases items.len(),
{
    if items.len() > 0 {
        let pre = items.drop_last();
        let m = index_of(pre);
        lemma_index_lists_every_place(pre, n);
        let (id, nm) = items.last();
        assert(index_of(items) == index_step(m, items.last()));
        lemma_first_key(m, n);
        match nm {
            Some(x) => {
                lemma_first_key(m, x);
                let k = first_key(m, x);
                let m2 = index_step(m, items.last());
                if k >= 0 {
                    assert(m2 == m.update(k, (x, m[k].1.push(id))));
                    assert(names_unique(m2)) by {
                        assert forall|i: int, j: int| 0 <= i < j < m2.len() implies #[trigger] m2[i].0
                            != #[trigger] m2[j].0 by {
                            assert(m2[i].0 == m[i].0);
                            assert(m2[j].0 == m[j].0);
                        }
                    }
                    let fk = first_key(m, n);
                    if x == n {
                        lemma_unique_key(m2, n, k);
                    } else if fk >= 0 {
                        assert(m2[fk].0 == n);
                        lemma_unique_key(m2, n, fk);
                    } else {
                        lemma_first_key(m2, n);
                        let f2 = first_key(m2, n);
                        if f2 >= 0 {
                            assert(m2[f2].0 == m[f2].0);
                        }
                    }
                } else {
                    assert(m2 == m.push((x, seq![id])));
                    assert(names_unique(m2)) by {
                        assert forall|i: int, j: int| 0 <= i < j < m2.len() implies #[trigger] m2[i].0
                            != #[trigger] m2[j].0 by {
                            if j == m.len() {
                                assert(m[i].0 != x);
                            } else {
                                assert(m2[i].0 == m[i].0);
                                assert(m2[j].0 == m[j].0);
                            }
                        }
                    }
                    let fk = first_key(m, n);
                    if x == n {
                        lemma_unique_key(m2, n, m.len() as int);
                        assert(places_named(pre, n) =~= Seq::<EntId>::empty()) by {
                            lemma_places_absent(pre, n);
                        }
                    } else if fk >= 0 {
                        assert(m2[fk].0 == n);
                        lemma_unique_key(m2, n, fk);
                    } else {
                        lemma_first_key(m2, n);
                        let f2 = first_key(m2, n);
                        if f2 >= 0 {
                            if f2 < m.len() {
                                assert(m2[f2].0 == m[f2].0);
                            }
                        }
                    }
                }
            },
            None => {},
        }
        assert(places_named(items, n) =~= places_named(pre, n) + if nm == Some(n) {
            seq![id]
        } else {
            Seq::<EntId>::empty()
        });
    }
}

/// A name that the index does not list was carried by no place.
proof fn lemma_places_absent(items: Seq<(EntId, Option<Seq<char>>)>, n: Seq<char>)
    requires
        first_key(index_of(items), n) < 0,
    ensures
        places_named(items, n) == Seq::<EntId>::empty(),
    decreases items.len(),
{
    if items.len() > 0 {
        let pre = items.drop_last();
        let m = index_of(pre);
        let (id, nm) = items.last();
        lemma_first_key(m, n);
        lemma_first_key(index_of(items), n);
        match nm {
            Some(x) => {
                let k = first_key(m, x);
                lemma_first_key(m, x);
                let m2 = index_of(items);
                if k >= 0 {
                    assert(m2 == m.update(k, (x, m[k].1.push(id))));
                    let fk = first_key(m, n);
                    if fk >= 0 {
                        assert(m2[fk].0 == n);
                    }
                } else {
                    assert(m2 == m.push((x, seq![id])));
                    let fk = first_key(m, n);
                    if fk >= 0 {
                        assert(m2[fk].0 == n);
                    }
                    assert(m2[m.len() as int].0 == x);
                }
            },
            None => {},
        }
        lemma_places_absent(pre, n);
        assert(places_named(items, n) =~= Seq::<EntId>::empty());
    }
}

/// The view of a list of names with their places.
pub open spec fn names_view(v: Seq<(String, Vec<EntId>)>) -> Seq<(Seq<char>, Seq<EntId>)> {
    v.map_values(|e: (String, Vec<EntId>)| (e.0@, e.1@))
}

/// An index from entity names (`targetname`) to the places of the entities
/// that carry them. Names need not be unique in a map, so each name lists
/// every place that carries it.
#[derive(Debug, Clone)]
pub struct EntityIndex {
    names: Vec<(String, Vec<EntId>)>,
}

impl View for EntityIndex {
    type V = Seq<(Seq<char>, Seq<EntId>)>;

    closed spec fn view(&self) -> Seq<(Seq<char>, Seq<EntId>)> {
        names_view(self.names@)
    }
}

impl EntityIndex {
    /// Builds the index of a map file's visible and hidden entities.
    pub fn build(vmf: &VmfFile) -> (x: Self)
        ensures
            x@ == index_of(named_places(*vmf)),
    {
        let items = vmf.iter_entities();
        let ghost np = named_places(*vmf);
        let mut names: Vec<(String, Vec<EntId>)> = Vec::new();
        let mut i: usize = 0;
        assert(np.take(0) =~= Seq::<(EntId, Option<Seq<char>>)>::empty());
        assert(names_view(names@) =~= Seq::<(Seq<char>, Seq<EntId>)>::empty());
        while i < items.len()
            invariant
                i <= items@.len(),
                items@.len() == np.len(),
                np == named_places(*vmf),
                forall|k: int|
                    0 <= k < items@.len() ==> (#[trigger] items@[k]).0 == placed(*vmf)[k].0 && items@[k].1@
                        == placed(*vmf)[k].1,
                names_view(names@) == index_of(np.take(i as int)),
            decreases items.len() - i,
        {
            let (id, ent) = items[i];
            assert(np.take(i + 1).drop_last() =~= np.take(i as int));
            assert(np[i as int] == (id, pair_value(ent@.key_values, "targetname"@)));
            match ent.targetname() {
                Some(name) => {
                    let ghost m = names_view(names@);
                    proof {
                        lemma_first_key(m, name@);
                    }
                    let mut k: usize = 0;
                    let mut found = false;
                    while k < names.len()
                        invariant_except_break
                            k <= names@.len(),
                            m == names_view(names@),
                            forall|j: int| 0 <= j < k ==> (#[trigger] m[j]).0 != name@,
                            -1 <= first_key(m, name@) < m.len(),
                            first_key(m, name@) >= 0 ==> m[first_key(m, name@)].0 == name@,
                            !found,
                        ensures
                            k <= names@.len(),
                            found ==> k < names@.len() && first_key(m, name@) == k,
                            !found ==> first_key(m, name@) < 0,
                        decreases names.len() - k,
                    {
                        if str_eq(names[k].0.as_str(), name) {
                            proof {
                                lemma_first_key(m, name@);
                                assert(m[k as int].0 == name@);
                            }
                            found = true;
                            break;
                        }
                        k = k + 1;
                    }
                    if found {
                        let ghost old_names = names@;
                        let (s, mut ids) = names.remove(k);
                        ids.push(id);
                        names.insert(k, (s, ids));
                        assert(names_view(names@) =~= m.update(k as int, (name@, m[k as int].1.push(id))));
                    } else {
                        let mut ids: Vec<EntId> = Vec::new();
                        ids.push(id);
                        names.push((name.to_string(), ids));
                        assert(names_view(names@) =~= m.push((name@, seq![id])));
                    }
                },
                None => {},
            }
            i = i + 1;
        }
        assert(np.take(items@.len() as int) =~= np);
        EntityIndex { names }
    }

    /// The places whose entity is named exactly `name`; none for a name
    /// that no entity carries.
    pub fn by_name(&self, name: &str) -> (r: &[EntId])
        ensures
            r@ == listed(self@, name@),
    {
        let ghost m = self@;
        proof {
            lemma_first_key(m, name@);
        }
        let mut k: usize = 0;
        while k < self.names.len()
            invariant
                k <= self.names@.len(),
                m == names_view(self.names@),
                forall|j: int| 0 <= j < k ==> (#[trigger] m[j]).0 != name@,
                -1 <= first_key(m, name@) < m.len(),
                first_key(m, name@) >= 0 ==> m[first_key(m, name@)].0 == name@,
            decreases self.names.len() - k,
        {
            if str_eq(self.names[k].0.as_str(), name) {
                proof {
                    lemma_first_key(m, name@);
                    assert(m[k as int].0 == name@);
                    if 0 <= first_key(m, name@) < k {
                        assert(m[first_key(m, name@)].0 != name@);
                    }
                }
                return self.names[k].1.as_slice();
            }
            k = k + 1;
        }
        &[]
    }

    /// The places whose entity's name starts with `prefix`, name by name in
    /// the order the names were first met.
    pub fn by_prefix(&self, prefix: &str) -> (r: Vec<EntId>)
        ensures
            r@ == listed_with_prefix(self@, prefix@),
    {
        let ghost m = self@;
        let mut r: Vec<EntId> = Vec::new();
        let mut k: usize = 0;
        assert(m.take(0) =~= Seq::<(Seq<char>, Seq<EntId>)>::empty());
        while k < self.names.len()
            invariant
                k <= self.names@.len(),
                m == names_view(self.names@),
                r@ == listed_with_prefix(m.take(k as int), prefix@),
            decreases self.names.len() - k,
        {
            assert(m.take(k + 1).drop_last() =~= m.take(k as int));
            if starts_with(self.names[k].0.as_str(), prefix) {
                let ids = &self.names[k].1;
                let mut j: usize = 0;
                let ghost r0 = r@;
                while j < ids.len()
                    invariant
                        j <= ids@.len(),
                        r@ == r0 + ids@.take(j as int),
                    decreases ids.len() - j,
                {
                    r.push(ids[j]);
                    assert(r@ =~= r0 + ids@.take(j + 1));
                    j = j + 1;
                }
                assert(ids@.take(ids@.len() as int) =~= ids@);
            } else {
                assert(r@ =~= listed_with_prefix(m.take(k as int), prefix@) + Seq::<EntId>::empty());
            }
            k = k + 1;
        }
        assert(m.take(self.names@.len() as int) =~= m);
        r
    }
}

} // verus!
