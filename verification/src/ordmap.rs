//! The insertion-ordered map of the `indexmap` crate, as this crate uses it:
//! string keys mapped to strings, to lists of integers, or to lists of
//! KeyValues values.
//!
//! A map is modelled by its entries in order. The operations below are
//! trusted: each states what `indexmap`'s documentation and source show of
//! the operation it calls.

use vstd::prelude::*;
use indexmap::IndexMap;
use crate::kv::value::{Value, values_tree, KvTree};

verus! {

#[verifier::external_type_specification]
#[verifier::external_body]
#[verifier::reject_recursive_types(K)]
#[verifier::reject_recursive_types(V)]
#[verifier::reject_recursive_types(S)]
pub struct ExIndexMap<K, V, S>(IndexMap<K, V, S>);

/// `IndexMap::clone`, which the derived `Clone` of the crate's structures
/// calls. Nothing is stated of the copy here: where the crate relies on
/// what a copy holds, it calls `smap_clone`.
pub assume_specification<K, V, S>[ <IndexMap<K, V, S> as Clone>::clone ](m: &IndexMap<K, V, S>) -> IndexMap<K, V, S>
    where
        K: Clone,
        V: Clone,
        S: Clone,
;

/// The entries of a string map, in order.
pub uninterp spec fn str_entries(m: IndexMap<String, String>) -> Seq<(Seq<char>, Seq<char>)>;

/// The entries of a map from strings to integer lists, in order.
pub uninterp spec fn list_entries(m: IndexMap<String, Vec<i32>>) -> Seq<(Seq<char>, Seq<i32>)>;

/// Index of the first entry with key `k`, or -1.
pub open spec fn first_key<V>(es: Seq<(Seq<char>, V)>, k: Seq<char>) -> int
    decreases es.len(),
{
    if es.len() == 0 {
        -1
    } else {
        let r = first_key(es.drop_last(), k);
        if r >= 0 {
            r
        } else if es.last().0 == k {
            es.len() - 1
        } else {
            -1
        }
    }
}

pub proof fn lemma_first_key<V>(es: Seq<(Seq<char>, V)>, k: Seq<char>)
    ensures
        -1 <= first_key(es, k) < es.len(),
        first_key(es, k) >= 0 ==> es[first_key(es, k)].0 == k,
        forall|j: int| 0 <= j < es.len() && (first_key(es, k) < 0 || j < first_key(es, k)) ==> #[trigger] es[j].0 != k,
    decreases es.len(),
{
    if es.len() > 0 {
        lemma_first_key(es.drop_last(), k);
        assert forall|j: int| 0 <= j < es.len() && (first_key(es, k) < 0 || j < first_key(es, k)) implies #[trigger] es[j].0 != k by {
            if j < es.len() - 1 {
                assert(es[j] == es.drop_last()[j]);
            }
        }
    }
}

/// `insert`: the value of an entry with key `k` is replaced in its place,
/// or a new entry is added at the end.
pub open spec fn put<V>(es: Seq<(Seq<char>, V)>, k: Seq<char>, v: V) -> Seq<(Seq<char>, V)> {
    let i = first_key(es, k);
    if i >= 0 {
        es.update(i, (k, v))
    } else {
        es.push((k, v))
    }
}

/// `extend`: the pairs of `more` inserted one after the other, in order.
pub open spec fn put_all<V>(es: Seq<(Seq<char>, V)>, more: Seq<(Seq<char>, V)>) -> Seq<(Seq<char>, V)>
    decreases more.len(),
{
    if more.len() == 0 {
        es
    } else {
        put(put_all(es, more.drop_last()), more.last().0, more.last().1)
    }
}

/// `IndexMap::new`: an empty map.
#[verifier::external_body]
pub(crate) fn smap_new() -> (m: IndexMap<String, String>)
    ensures
        str_entries(m) == Seq::<(Seq<char>, Seq<char>)>::empty(),
{
    IndexMap::new()
}

/// `IndexMap::len`: the number of entries.
#[verifier::external_body]
pub(crate) fn smap_len(m: &IndexMap<String, String>) -> (n: usize)
    ensures
        n == str_entries(*m).len(),
{
    m.len()
}

/// `IndexMap::get_index`: the entry at position `i`.
#[verifier::external_body]
pub(crate) fn smap_get_index(m: &IndexMap<String, String>, i: usize) -> (r: Option<(&String, &String)>)
    ensures
        i < str_entries(*m).len() ==> r is Some && (r->0).0@ == str_entries(*m)[i as int].0
            && (r->0).1@ == str_entries(*m)[i as int].1,
        i >= str_entries(*m).len() ==> r is None,
{
    m.get_index(i)
}

/// `IndexMap::get_index_of`: the position of the entry with key `key`.
#[verifier::external_body]
pub(crate) fn smap_get_index_of(m: &IndexMap<String, String>, key: &str) -> (r: Option<usize>)
    ensures
        r matches Some(i) ==> i < str_entries(*m).len() && str_entries(*m)[i as int].0 == key@ && i == first_key(
            str_entries(*m),
            key@,
        ),
        r is None ==> first_key(str_entries(*m), key@) < 0,
{
    m.get_index_of(key)
}

/// `IndexMap::extend` with the entries of another map: the same as
/// inserting each of its entries in order.
#[verifier::external_body]
pub(crate) fn smap_extend(m: &mut IndexMap<String, String>, more: IndexMap<String, String>)
    ensures
        str_entries(*final(m)) == put_all(str_entries(*old(m)), str_entries(more)),
{
    m.extend(more)
}

/// `IndexMap::insert`: replaces the value of the entry with key `key` in its
/// place and gives back the old value, or adds a new entry at the end.
#[verifier::external_body]
pub(crate) fn smap_insert(m: &mut IndexMap<String, String>, key: String, value: String) -> (r: Option<String>)
    ensures
        str_entries(*final(m)) == put(str_entries(*old(m)), key@, value@),
        first_key(str_entries(*old(m)), key@) >= 0 ==> r is Some && r->0@ == str_entries(*old(m))[first_key(
            str_entries(*old(m)),
            key@,
        )].1,
        first_key(str_entries(*old(m)), key@) < 0 ==> r is None,
{
    m.insert(key, value)
}

/// `IndexMap::shift_remove_index`: removes the entry at position `i`, keeping
/// the order of the others.
#[verifier::external_body]
pub(crate) fn smap_shift_remove_index(m: &mut IndexMap<String, String>, i: usize) -> (r: Option<(String, String)>)
    ensures
        i < str_entries(*old(m)).len() ==> r is Some && (r->0).0@ == str_entries(*old(m))[i as int].0
            && (r->0).1@ == str_entries(*old(m))[i as int].1 && str_entries(*final(m)) == str_entries(
            *old(m),
        ).remove(i as int),
        i >= str_entries(*old(m)).len() ==> r is None && str_entries(*final(m)) == str_entries(*old(m)),
{
    m.shift_remove_index(i)
}

/// `IndexMap::swap_remove_index`: removes the entry at position `i` by moving
/// the last entry into its place.
#[verifier::external_body]
pub(crate) fn smap_swap_remove_index(m: &mut IndexMap<String, String>, i: usize) -> (r: Option<(String, String)>)
    ensures
        i < str_entries(*old(m)).len() ==> r is Some && (r->0).0@ == str_entries(*old(m))[i as int].0
            && (r->0).1@ == str_entries(*old(m))[i as int].1 && str_entries(*final(m)) == str_entries(
            *old(m),
        ).update(i as int, str_entries(*old(m)).last()).drop_last(),
        i >= str_entries(*old(m)).len() ==> r is None && str_entries(*final(m)) == str_entries(*old(m)),
{
    m.swap_remove_index(i)
}

/// `Clone` of a string map: the same entries.
#[verifier::external_body]
pub(crate) fn smap_clone(m: &IndexMap<String, String>) -> (r: IndexMap<String, String>)
    ensures
        str_entries(r) == str_entries(*m),
{
    m.clone()
}

/// `IndexMap::new` for lists of integers.
#[verifier::external_body]
pub(crate) fn lmap_new() -> (m: IndexMap<String, Vec<i32>>)
    ensures
        list_entries(m) == Seq::<(Seq<char>, Seq<i32>)>::empty(),
{
    IndexMap::new()
}

/// `IndexMap::len` for lists of integers.
#[verifier::external_body]
pub(crate) fn lmap_len(m: &IndexMap<String, Vec<i32>>) -> (n: usize)
    ensures
        n == list_entries(*m).len(),
{
    m.len()
}

/// `IndexMap::get_index` for lists of integers.
#[verifier::external_body]
pub(crate) fn lmap_get_index(m: &IndexMap<String, Vec<i32>>, i: usize) -> (r: Option<(&String, &Vec<i32>)>)
    ensures
        i < list_entries(*m).len() ==> r is Some && (r->0).0@ == list_entries(*m)[i as int].0
            && (r->0).1@ == list_entries(*m)[i as int].1,
        i >= list_entries(*m).len() ==> r is None,
{
    m.get_index(i)
}

/// `IndexMap::insert` for lists of integers.
#[verifier::external_body]
pub(crate) fn lmap_insert(m: &mut IndexMap<String, Vec<i32>>, key: String, value: Vec<i32>) -> (r: Option<Vec<i32>>)
    ensures
        list_entries(*final(m)) == put(list_entries(*old(m)), key@, value@),
        first_key(list_entries(*old(m)), key@) < 0 ==> r is None,
{
    m.insert(key, value)
}

/// The entries of a map from strings to lists of KeyValues values, in
/// order.
pub uninterp spec fn prop_entries(m: IndexMap<String, Vec<Value>>) -> Seq<(Seq<char>, Seq<KvTree>)>;

/// `IndexMap::new` for lists of values.
#[verifier::external_body]
pub(crate) fn pmap_new() -> (m: IndexMap<String, Vec<Value>>)
    ensures
        prop_entries(m) == Seq::<(Seq<char>, Seq<KvTree>)>::empty(),
{
    IndexMap::new()
}

/// `IndexMap::len` for lists of values.
#[verifier::external_body]
pub(crate) fn pmap_len(m: &IndexMap<String, Vec<Value>>) -> (n: usize)
    ensures
        n == prop_entries(*m).len(),
{
    m.len()
}

/// `IndexMap::get_index` for lists of values.
#[verifier::external_body]
pub(crate) fn pmap_get_index(m: &IndexMap<String, Vec<Value>>, i: usize) -> (r: Option<(&String, &Vec<Value>)>)
    ensures
        i < prop_entries(*m).len() ==> r is Some && (r->0).0@ == prop_entries(*m)[i as int].0
            && values_tree((r->0).1@) == prop_entries(*m)[i as int].1,
        i >= prop_entries(*m).len() ==> r is None,
{
    m.get_index(i)
}

/// `IndexMap::get_index_of` for lists of values.
#[verifier::external_body]
pub(crate) fn pmap_get_index_of(m: &IndexMap<String, Vec<Value>>, key: &str) -> (r: Option<usize>)
    ensures
        r is Some ==> r->0 < prop_entries(*m).len() && r->0 == first_key(prop_entries(*m), key@),
        r is None ==> first_key(prop_entries(*m), key@) < 0,
{
    m.get_index_of(key)
}

/// `IndexMap::insert` for lists of values: replaces the value of the entry
/// with key `key` in its place, or adds a new entry at the end.
#[verifier::external_body]
pub(crate) fn pmap_insert(m: &mut IndexMap<String, Vec<Value>>, key: String, value: Vec<Value>) -> (r: Option<Vec<Value>>)
    ensures
        prop_entries(*final(m)) == put(prop_entries(*old(m)), key@, values_tree(value@)),
        first_key(prop_entries(*old(m)), key@) < 0 ==> r is None,
{
    m.insert(key, value)
}

/// `IndexMap::shift_remove_index` for lists of values: removes the entry at
/// position `i`, keeping the order of the others.
#[verifier::external_body]
pub(crate) fn pmap_shift_remove_index(m: &mut IndexMap<String, Vec<Value>>, i: usize) -> (r: Option<(String, Vec<Value>)>)
    ensures
        i < prop_entries(*old(m)).len() ==> r is Some && prop_entries(*final(m)) == prop_entries(*old(m)).remove(
            i as int,
        ),
        i >= prop_entries(*old(m)).len() ==> r is None && prop_entries(*final(m)) == prop_entries(*old(m)),
{
    m.shift_remove_index(i)
}

/// After `insert`, the first entry with the key holds the inserted value.
pub proof fn lemma_put_found<V>(es: Seq<(Seq<char>, V)>, k: Seq<char>, v: V)
    ensures
        first_key(put(es, k, v), k) >= 0,
        put(es, k, v)[first_key(put(es, k, v), k)] == (k, v),
{
    lemma_first_key(es, k);
    let i = first_key(es, k);
    let m = put(es, k, v);
    lemma_first_key(m, k);
    let j = first_key(m, k);
    if i >= 0 {
        assert(m[i].0 == k);
        if 0 <= j < i {
            assert(m[j] == es[j]);
        }
    } else {
        assert(m[es.len() as int].0 == k);
        if 0 <= j < es.len() {
            assert(m[j] == es[j]);
        }
    }
}

/// Putting a key leaves whether another key is found unchanged.
pub proof fn lemma_put_other<V>(es: Seq<(Seq<char>, V)>, k: Seq<char>, v: V, k2: Seq<char>)
    requires
        k2 != k,
    ensures
        (first_key(put(es, k, v), k2) < 0) == (first_key(es, k2) < 0),
{
    lemma_first_key(es, k);
    lemma_first_key(es, k2);
    let m = put(es, k, v);
    lemma_first_key(m, k2);
    let i = first_key(es, k);
    if first_key(es, k2) >= 0 {
        let j = first_key(es, k2);
        assert(m[j].0 == k2) by {
            if i >= 0 && i == j {
                assert(es[i].0 == k);
            }
        }
    }
    if first_key(m, k2) >= 0 {
        let j = first_key(m, k2);
        if i >= 0 {
            assert(m[j] == es[j] || j == i);
        } else {
            assert(j < es.len());
        }
    }
}

} // verus!
