//! The [`Vmt`] type: reading, querying, editing and writing a material.

use vstd::prelude::*;
use indexmap::IndexMap;
use crate::kv::de::{Deserializer, fail_is};
use crate::kv::error::Error;
use crate::kv::grammar::{KvMap, parse_kv};
use crate::kv::ser::kv_text;
use crate::kv::value::{Entry, KvTree, Value, clone_values, entries_tree, values_tree, lemma_entries_tree,
    lemma_values_tree};
use crate::ordmap::{first_key, lemma_first_key, lemma_put_found, lemma_put_other, put, prop_entries, pmap_new, pmap_len, pmap_get_index,
    pmap_get_index_of, pmap_insert, pmap_shift_remove_index};
use crate::text::{dec_int, parse_i32, parse_int, push_char, str_eq, unicode_lowercase};
use super::{VmtKey, intern_key};

verus! {

broadcast use {lemma_entries_tree, lemma_values_tree};

/// A material: its shader (in lower case) and its properties in order.
#[derive(Debug, Clone)]
pub struct Vmt {
    pub shader: String,
    pub properties: IndexMap<VmtKey, Vec<Value>>,
}

/// The entries `m` with their keys normalized, inserted in order: a later
/// entry whose key normalizes to that of an earlier one replaces its
/// values in place.
pub open spec fn interned(props: KvMap, m: KvMap) -> KvMap
    decreases m.len(),
{
    if m.len() == 0 {
        props
    } else {
        put(interned(props, m.drop_last()), unicode_lowercase(m.last().0), m.last().1)
    }
}

/// The shader and the properties of a document: its last entry, if the
/// last value written under it is a block.
pub open spec fn vmt_shape(t: KvTree) -> Option<(Seq<char>, KvMap)> {
    match t {
        KvTree::Obj(m) => if m.len() > 0 && m.last().1.len() > 0 {
            match m.last().1.last() {
                KvTree::Obj(props) => Some((unicode_lowercase(m.last().0), interned(Seq::empty(), props))),
                KvTree::Str(_) => None,
            }
        } else {
            None
        },
        KvTree::Str(_) => None,
    }
}

/// The message of a document that is no material.
pub open spec fn invalid_msg() -> Seq<char> {
    "Invalid VMT: Missing shader root or body"@
}

/// Whether a key starts with the `$` or `%` sigil of material parameters.
pub open spec fn has_sigil(k: Seq<char>) -> bool {
    k.len() > 0 && (k[0] == '$' || k[0] == '%')
}

/// The bare name of a key: without its sigil, if it has one.
pub open spec fn bare(k: Seq<char>) -> Seq<char> {
    if has_sigil(k) {
        k.drop_first()
    } else {
        k
    }
}

/// The position of the entry that a lookup of `key` finds: its bare name
/// in lower case, else that name with a `$` in front, else with a `%` in
/// front; -1 if none. So `$color` finds a `color` entry, and `color` a
/// `$color` one.
pub open spec fn prop_slot(props: KvMap, key: Seq<char>) -> int {
    let base = bare(unicode_lowercase(key));
    if first_key(props, base) >= 0 {
        first_key(props, base)
    } else if first_key(props, seq!['$'] + base) >= 0 {
        first_key(props, seq!['$'] + base)
    } else {
        first_key(props, seq!['%'] + base)
    }
}

/// The first value of the entry that a lookup of `key` finds.
pub open spec fn raw_of(props: KvMap, key: Seq<char>) -> Option<KvTree> {
    let i = prop_slot(props, key);
    if i >= 0 && props[i].1.len() > 0 {
        Some(props[i].1[0])
    } else {
        None
    }
}

/// The string that a lookup of `key` finds.
pub open spec fn string_of(props: KvMap, key: Seq<char>) -> Option<Seq<char>> {
    match raw_of(props, key) {
        Some(KvTree::Str(s)) => Some(s),
        _ => None,
    }
}

/// The entries without the one with key `k`, if any.
pub open spec fn removed(props: KvMap, k: Seq<char>) -> KvMap {
    let i = first_key(props, k);
    if i >= 0 {
        props.remove(i)
    } else {
        props
    }
}

/// The properties after the entries of a `replace` or `insert` block of a
/// patch found by a lookup of `key`.
pub open spec fn patched(props: KvMap, patch: KvMap, key: Seq<char>) -> KvMap {
    match raw_of(patch, key) {
        Some(KvTree::Obj(m)) => interned(props, m),
        _ => props,
    }
}

/// The properties after a patch: its `replace` entries, then its `insert`
/// entries, with the patch's own keys removed.
pub open spec fn after_patch(props: KvMap, patch: KvMap) -> KvMap {
    let p1 = patched(props, patch, "replace"@);
    let p2 = patched(p1, patch, "insert"@);
    removed(removed(removed(removed(p2, "insert"@), "replace"@), "include"@), "$include"@)
}

/// The values under key `k` exactly, if it is in use.
pub open spec fn value_under(props: KvMap, k: Seq<char>) -> Option<Seq<KvTree>> {
    let i = first_key(props, k);
    if i >= 0 {
        Some(props[i].1)
    } else {
        None
    }
}

/// The first entry with key `k` is the one at `j` when `j` holds `k` and no
/// earlier entry does.
proof fn lemma_first_key_at(es: KvMap, k: Seq<char>, j: int)
    requires
        0 <= j < es.len(),
        es[j].0 == k,
        forall|l: int| 0 <= l < j ==> (#[trigger] es[l]).0 != k,
    ensures
        first_key(es, k) == j,
{
    lemma_first_key(es, k);
}

/// Putting one key leaves the values under every other key as they were.
proof fn lemma_put_keeps(es: KvMap, k: Seq<char>, v: Seq<KvTree>, k2: Seq<char>)
    requires
        k2 != k,
    ensures
        value_under(put(es, k, v), k2) == value_under(es, k2),
{
    lemma_first_key(es, k);
    lemma_first_key(es, k2);
    let r = put(es, k, v);
    let f = first_key(es, k2);
    if f >= 0 {
        assert(r[f] == es[f]);
        assert forall|l: int| 0 <= l < f implies (#[trigger] r[l]).0 != k2 by {
            assert(r[l].0 == es[l].0 || r[l].0 == k);
        }
        lemma_first_key_at(r, k2, f);
    } else {
        lemma_first_key(r, k2);
        if first_key(r, k2) >= 0 {
            let g = first_key(r, k2);
            if g < es.len() {
                assert(r[g].0 == es[g].0 || r[g].0 == k);
            } else {
                assert(r[g].0 == k);
            }
        }
    }
}

/// Removing one key leaves the values under every other key as they were.
proof fn lemma_removed_keeps(es: KvMap, k: Seq<char>, k2: Seq<char>)
    requires
        k2 != k,
    ensures
        value_under(removed(es, k), k2) == value_under(es, k2),
{
    lemma_first_key(es, k);
    lemma_first_key(es, k2);
    let i = first_key(es, k);
    if i >= 0 {
        let r = es.remove(i);
        let f = first_key(es, k2);
        if f >= 0 {
            let g = if f < i { f } else { f - 1 };
            assert(r[g] == es[f]);
            assert forall|l: int| 0 <= l < g implies (#[trigger] r[l]).0 != k2 by {
                if l < i {
                    assert(r[l] == es[l]);
                } else {
                    assert(r[l] == es[l + 1]);
                }
            }
            lemma_first_key_at(r, k2, g);
        } else {
            lemma_first_key(r, k2);
            if first_key(r, k2) >= 0 {
                let g = first_key(r, k2);
                if g < i {
                    assert(r[g] == es[g]);
                } else {
                    assert(r[g] == es[g + 1]);
                }
            }
        }
    }
}

/// The values an entry of `m` is interned with, when no later entry of `m`
/// has a key that normalizes to the same.
proof fn lemma_interned_value(props: KvMap, m: KvMap, j: int)
    requires
        0 <= j < m.len(),
        forall|l: int| j < l < m.len() ==> unicode_lowercase((#[trigger] m[l]).0) != unicode_lowercase(m[j].0),
    ensures
        value_under(interned(props, m), unicode_lowercase(m[j].0)) == Some(m[j].1),
    decreases m.len(),
{
    let lk = unicode_lowercase(m[j].0);
    let before = interned(props, m.drop_last());
    if j == m.len() - 1 {
        lemma_put_found(before, lk, m[j].1);
    } else {
        assert forall|l: int| j < l < m.drop_last().len() implies unicode_lowercase((#[trigger] m.drop_last()[l]).0)
            != unicode_lowercase(m.drop_last()[j].0) by {
            assert(m.drop_last()[l] == m[l]);
        }
        assert(m.drop_last()[j] == m[j]);
        lemma_interned_value(props, m.drop_last(), j);
        assert(unicode_lowercase(m[m.len() - 1].0) != lk);
        lemma_put_keeps(before, unicode_lowercase(m.last().0), m.last().1, lk);
    }
}

/// A patch's `insert` block always takes effect: after applying the patch,
/// each of its entries (the last of those whose keys normalize alike) is
/// present with its values, whether or not the patch also replaces
/// entries, unless its key is one of the patch keys that are removed.
pub proof fn lemma_patch_inserts(props: KvMap, patch: KvMap, m: KvMap, j: int)
    requires
        raw_of(patch, "insert"@) == Some(KvTree::Obj(m)),
        0 <= j < m.len(),
        forall|l: int| j < l < m.len() ==> unicode_lowercase((#[trigger] m[l]).0) != unicode_lowercase(m[j].0),
        unicode_lowercase(m[j].0) != "insert"@,
        unicode_lowercase(m[j].0) != "replace"@,
        unicode_lowercase(m[j].0) != "include"@,
        unicode_lowercase(m[j].0) != "$include"@,
    ensures
        value_under(after_patch(props, patch), unicode_lowercase(m[j].0)) == Some(m[j].1),
{
    let lk = unicode_lowercase(m[j].0);
    let p1 = patched(props, patch, "replace"@);
    let p2 = patched(p1, patch, "insert"@);
    assert(p2 == interned(p1, m));
    lemma_interned_value(p1, m, j);
    let q1 = removed(p2, "insert"@);
    let q2 = removed(q1, "replace"@);
    let q3 = removed(q2, "include"@);
    lemma_removed_keeps(p2, "insert"@, lk);
    lemma_removed_keeps(q1, "replace"@, lk);
    lemma_removed_keeps(q2, "include"@, lk);
    lemma_removed_keeps(q3, "$include"@, lk);
}

proof fn lemma_removed_gone(es: KvMap, k: Seq<char>, k2: Seq<char>)
    requires
        value_under(es, k2) is None || k2 == k,
        k2 == k ==> first_key(es, k) < 0 || forall|l: int| 0 <= l < es.len() && l != first_key(es, k) ==> (#[trigger] es[l]).0 != k,
    ensures
        value_under(removed(es, k), k2) is None,
{
    lemma_first_key(es, k);
    lemma_first_key(es, k2);
    let r = removed(es, k);
    lemma_first_key(r, k2);
    let i = first_key(es, k);
    if first_key(r, k2) >= 0 {
        let g = first_key(r, k2);
        if i >= 0 {
            if g < i {
                assert(r[g] == es[g]);
            } else {
                assert(r[g] == es[g + 1]);
            }
        }
    }
}

/// After a patch, the keys that belong to patches are gone where each was
/// held at most once: no `insert`, `replace`, `include` or `$include`
/// entry is left.
pub proof fn lemma_patch_keys_removed(props: KvMap, patch: KvMap, k: Seq<char>)
    requires
        k == "insert"@ || k == "replace"@ || k == "include"@ || k == "$include"@,
        forall|i: int, j: int|
            0 <= i < j < patched(patched(props, patch, "replace"@), patch, "insert"@).len() ==> (#[trigger] patched(
                patched(props, patch, "replace"@),
                patch,
                "insert"@,
            )[i]).0 != (#[trigger] patched(patched(props, patch, "replace"@), patch, "insert"@)[j]).0,
    ensures
        value_under(after_patch(props, patch), k) is None,
{
    reveal_strlit("insert");
    reveal_strlit("replace");
    reveal_strlit("include");
    reveal_strlit("$include");
    let p2 = patched(patched(props, patch, "replace"@), patch, "insert"@);
    let q1 = removed(p2, "insert"@);
    let q2 = removed(q1, "replace"@);
    let q3 = removed(q2, "include"@);
    let q4 = removed(q3, "$include"@);
    assert(forall|i: int, j: int| 0 <= i < j < q1.len() ==> (#[trigger] q1[i]).0 != (#[trigger] q1[j]).0) by {
        lemma_first_key(p2, "insert"@);
        assert forall|i: int, j: int| 0 <= i < j < q1.len() implies (#[trigger] q1[i]).0 != (#[trigger] q1[j]).0 by {
            let f = first_key(p2, "insert"@);
            if f >= 0 {
                let a = if i < f { i } else { i + 1 };
                let b = if j < f { j } else { j + 1 };
                assert(q1[i] == p2[a] && q1[j] == p2[b]);
            } else {
                assert(q1[i] == p2[i] && q1[j] == p2[j]);
            }
        }
    }
    assert(forall|i: int, j: int| 0 <= i < j < q2.len() ==> (#[trigger] q2[i]).0 != (#[trigger] q2[j]).0) by {
        lemma_first_key(q1, "replace"@);
        assert forall|i: int, j: int| 0 <= i < j < q2.len() implies (#[trigger] q2[i]).0 != (#[trigger] q2[j]).0 by {
            let f = first_key(q1, "replace"@);
            if f >= 0 {
                let a = if i < f { i } else { i + 1 };
                let b = if j < f { j } else { j + 1 };
                assert(q2[i] == q1[a] && q2[j] == q1[b]);
            } else {
                assert(q2[i] == q1[i] && q2[j] == q1[j]);
            }
        }
    }
    assert(forall|i: int, j: int| 0 <= i < j < q3.len() ==> (#[trigger] q3[i]).0 != (#[trigger] q3[j]).0) by {
        lemma_first_key(q2, "include"@);
        assert forall|i: int, j: int| 0 <= i < j < q3.len() implies (#[trigger] q3[i]).0 != (#[trigger] q3[j]).0 by {
            let f = first_key(q2, "include"@);
            if f >= 0 {
                let a = if i < f { i } else { i + 1 };
                let b = if j < f { j } else { j + 1 };
                assert(q3[i] == q2[a] && q3[j] == q2[b]);
            } else {
                assert(q3[i] == q2[i] && q3[j] == q2[j]);
            }
        }
    }
    lemma_first_key(p2, "insert"@);
    lemma_first_key(q1, "replace"@);
    lemma_first_key(q2, "include"@);
    lemma_first_key(q3, "$include"@);
    assert("insert"@ != "replace"@ && "insert"@ != "include"@ && "insert"@ != "$include"@) by {
        assert("insert"@.len() == 6 && "replace"@.len() == 7 && "include"@.len() == 7 && "$include"@.len() == 8);
    }
    assert("replace"@ != "include"@ && "replace"@ != "$include"@ && "include"@ != "$include"@) by {
        assert("replace"@[0] != "include"@[0]);
        assert("replace"@.len() == 7 && "include"@.len() == 7 && "$include"@.len() == 8);
    }
    if k == "insert"@ {
        lemma_removed_gone(p2, "insert"@, k);
        lemma_removed_gone(q1, "replace"@, k);
        lemma_removed_gone(q2, "include"@, k);
        lemma_removed_gone(q3, "$include"@, k);
    } else if k == "replace"@ {
        lemma_removed_keeps(p2, "insert"@, k);
        lemma_removed_gone(q1, "replace"@, k);
        lemma_removed_gone(q2, "include"@, k);
        lemma_removed_gone(q3, "$include"@, k);
    } else if k == "include"@ {
        lemma_removed_keeps(p2, "insert"@, k);
        lemma_removed_keeps(q1, "replace"@, k);
        lemma_removed_gone(q2, "include"@, k);
        lemma_removed_gone(q3, "$include"@, k);
    } else {
        lemma_removed_keeps(p2, "insert"@, k);
        lemma_removed_keeps(q1, "replace"@, k);
        lemma_removed_keeps(q2, "include"@, k);
        lemma_removed_gone(q3, "$include"@, k);
    }
}

/// The text of a material: a document with the shader as its one key and
/// the properties as its block.
pub open spec fn vmt_text(shader: Seq<char>, props: KvMap) -> Seq<char> {
    kv_text(KvTree::Obj(seq![(shader, seq![KvTree::Obj(props)])]))
}

/// A text of one character.
fn one_char(c: char) -> (s: String)
    ensures
        s@ == seq![c],
{
    let mut s = String::new();
    push_char(&mut s, c);
    s
}

/// The bare name of a key: without its sigil, if it has one.
fn bare_name(k: &str) -> (r: String)
    ensures
        r@ == bare(k@),
{
    let n = k.unicode_len();
    if n > 0 {
        let c = k.get_char(0);
        if c == '$' || c == '%' {
            let rest = k.substring_char(1, n);
            assert(rest@ =~= k@.drop_first());
            return rest.to_string();
        }
    }
    k.to_string()
}

/// `c` followed by `s`.
fn prefixed(c: char, s: &str) -> (r: String)
    ensures
        r@ == seq![c] + s@,
{
    let mut r = one_char(c);
    r.append(s);
    r
}

impl Vmt {
    /// Creates a new empty material with the specified shader.
    pub fn new(shader: &str) -> (v: Self)
        ensures
            v.shader@ == unicode_lowercase(shader@),
            prop_entries(v.properties).len() == 0,
    {
        Vmt { shader: intern_key(shader), properties: pmap_new() }
    }

    /// Inserts the entries of a block, their keys normalized, in order.
    fn insert_entries(properties: &mut IndexMap<VmtKey, Vec<Value>>, es: &Vec<Entry>)
        ensures
            prop_entries(*final(properties)) == interned(prop_entries(*old(properties)), entries_tree(es@)),
    {
        let ghost p0 = prop_entries(*properties);
        let ghost m = entries_tree(es@);
        let mut i: usize = 0;
        assert(m.take(0) =~= Seq::<(Seq<char>, Seq<KvTree>)>::empty());
        while i < es.len()
            invariant
                i <= es@.len(),
                m == entries_tree(es@),
                prop_entries(*properties) == interned(p0, m.take(i as int)),
            decreases es.len() - i,
        {
            assert(m.take(i + 1).drop_last() =~= m.take(i as int));
            let k = intern_key(es[i].key.as_str());
            let vs = clone_values(&es[i].values);
            let _ = pmap_insert(properties, k, vs);
            i = i + 1;
        }
        assert(m.take(es@.len() as int) =~= m);
    }

    /// Reads a material from KeyValues text: the last entry of the
    /// document names the shader, and the last block written under it holds
    /// the properties.
    pub fn from_str(input: &str) -> (r: Result<Self, Error>)
        ensures
            match parse_kv(input@) {
                Err(f) => r is Err && fail_is(r->Err_0, f),
                Ok(t) => match vmt_shape(t) {
                    Some((shader, props)) => r is Ok && r->Ok_0.shader@ == shader && prop_entries(r->Ok_0.properties)
                        == props,
                    None => r is Err && r->Err_0 is Message && r->Err_0->Message_0@ == invalid_msg(),
                },
            },
    {
        let mut de = Deserializer::from_str(input);
        let root = match de.parse_root() {
            Ok(v) => v,
            Err(e) => {
                return Err(e);
            },
        };
        match &root {
            Value::Obj(root_map) => {
                let n = root_map.len();
                if n > 0 {
                    let last = &root_map[n - 1];
                    let m = last.values.len();
                    if m > 0 {
                        match &last.values[m - 1] {
                            Value::Obj(props) => {
                                let mut properties = pmap_new();
                                Self::insert_entries(&mut properties, props);
                                proof {
                                    let t = entries_tree(root_map@);
                                    assert(t.last() == (last.key@, values_tree(last.values@)));
                                    assert(values_tree(last.values@).last() == KvTree::Obj(entries_tree(props@)));
                                }
                                return Ok(Vmt { shader: intern_key(last.key.as_str()), properties });
                            },
                            Value::Str(_) => {},
                        }
                    }
                }
            },
            Value::Str(_) => {},
        }
        Err(Error::Message(String::from_str("Invalid VMT: Missing shader root or body")))
    }

    /// The position of the entry that a lookup of `key` finds.
    fn slot(&self, key: &str) -> (r: Option<usize>)
        ensures
            r is Some ==> r->0 == prop_slot(prop_entries(self.properties), key@) && r->0 < prop_entries(
                self.properties,
            ).len(),
            r is None ==> prop_slot(prop_entries(self.properties), key@) < 0,
    {
        let lower = intern_key(key);
        let base = bare_name(lower.as_str());
        match pmap_get_index_of(&self.properties, base.as_str()) {
            Some(i) => Some(i),
            None => {
                let d = prefixed('$', base.as_str());
                match pmap_get_index_of(&self.properties, d.as_str()) {
                    Some(i) => Some(i),
                    None => {
                        let p = prefixed('%', base.as_str());
                        pmap_get_index_of(&self.properties, p.as_str())
                    },
                }
            },
        }
    }

    /// The first value of the property `key`, looked up in lower case and
    /// with the `$` and `%` prefixes.
    pub fn get_raw(&self, key: &str) -> (r: Option<&Value>)
        ensures
            match raw_of(prop_entries(self.properties), key@) {
                Some(t) => r is Some && r->0@ == t,
                None => r is None,
            },
    {
        match self.slot(key) {
            Some(i) => match pmap_get_index(&self.properties, i) {
                Some((_, vs)) => if vs.len() > 0 {
                    Some(&vs[0])
                } else {
                    None
                },
                None => None,
            },
            None => None,
        }
    }

    /// The property `key` if it is a string.
    pub fn get_string(&self, key: &str) -> (r: Option<String>)
        ensures
            match string_of(prop_entries(self.properties), key@) {
                Some(s) => r is Some && r->0@ == s,
                None => r is None,
            },
    {
        match self.get_raw(key) {
            Some(Value::Str(s)) => Some(s.clone()),
            _ => None,
        }
    }

    /// The property `key` read as an `i32`.
    pub fn get_i32(&self, key: &str) -> (r: Option<i32>)
        ensures
            match string_of(prop_entries(self.properties), key@) {
                Some(s) => match parse_int(s, true, i32::MIN as int, i32::MAX as int) {
                    Some(v) => r == Some(v as i32),
                    None => r is None,
                },
                None => r is None,
            },
    {
        match self.get_string(key) {
            Some(s) => parse_i32(s.as_str()),
            None => None,
        }
    }

    /// Whether the property `key` is the flag `1`, `true` or `yes`.
    pub fn get_bool(&self, key: &str) -> (r: bool)
        ensures
            r == match string_of(prop_entries(self.properties), key@) {
                Some(s) => s == "1"@ || s == "true"@ || s == "yes"@,
                None => false,
            },
    {
        match self.get_string(key) {
            Some(s) => str_eq(s.as_str(), "1") || str_eq(s.as_str(), "true") || str_eq(s.as_str(), "yes"),
            None => false,
        }
    }

    /// Sets a string property under the normalized key, replacing what
    /// was there.
    pub fn set_string(&mut self, key: &str, value: &str)
        ensures
            final(self).shader == old(self).shader,
            prop_entries(final(self).properties) == put(
                prop_entries(old(self).properties),
                unicode_lowercase(key@),
                seq![KvTree::Str(value@)],
            ),
    {
        let mut vs: Vec<Value> = Vec::new();
        vs.push(Value::Str(value.to_string()));
        assert(values_tree(vs@) =~= seq![KvTree::Str(value@)]);
        let _ = pmap_insert(&mut self.properties, intern_key(key), vs);
    }

    /// Sets a flag property to `1` or `0`.
    pub fn set_flag(&mut self, key: &str, enabled: bool)
        ensures
            final(self).shader == old(self).shader,
            prop_entries(final(self).properties) == put(
                prop_entries(old(self).properties),
                unicode_lowercase(key@),
                seq![KvTree::Str(if enabled { seq!['1'] } else { seq!['0'] })],
            ),
    {
        let v = if enabled {
            one_char('1')
        } else {
            one_char('0')
        };
        self.set_string(key, v.as_str());
    }

    /// Removes the entry with key `k` exactly.
    fn remove_exact(properties: &mut IndexMap<VmtKey, Vec<Value>>, k: &str)
        ensures
            prop_entries(*final(properties)) == removed(prop_entries(*old(properties)), k@),
    {
        match pmap_get_index_of(properties, k) {
            Some(i) => {
                let _ = pmap_shift_remove_index(properties, i);
            },
            None => {},
        }
    }

    /// Removes the property `key`: the entries under its lower-case form,
    /// and under that form with the `$` and `%` prefixes.
    pub fn remove(&mut self, key: &str)
        ensures
            final(self).shader == old(self).shader,
            prop_entries(final(self).properties) == removed(
                removed(
                    removed(prop_entries(old(self).properties), unicode_lowercase(key@)),
                    seq!['$'] + unicode_lowercase(key@),
                ),
                seq!['%'] + unicode_lowercase(key@),
            ),
    {
        let base = intern_key(key);
        Self::remove_exact(&mut self.properties, base.as_str());
        let d = prefixed('$', base.as_str());
        Self::remove_exact(&mut self.properties, d.as_str());
        let p = prefixed('%', base.as_str());
        Self::remove_exact(&mut self.properties, p.as_str());
    }

    /// Inserts the entries of the block that a lookup of `key` finds in
    /// `patch`, if it is one.
    fn patch_from(&mut self, patch: &Vmt, key: &str)
        ensures
            final(self).shader == old(self).shader,
            prop_entries(final(self).properties) == patched(
                prop_entries(old(self).properties),
                prop_entries(patch.properties),
                key@,
            ),
    {
        match patch.get_raw(key) {
            Some(Value::Obj(m)) => {
                Self::insert_entries(&mut self.properties, m);
            },
            _ => {},
        }
    }

    /// Applies the `replace` and then the `insert` entries of a patch
    /// material, and removes the keys that belong to patches.
    pub fn apply_patch(&mut self, patch: &Vmt)
        ensures
            final(self).shader == old(self).shader,
            prop_entries(final(self).properties) == after_patch(
                prop_entries(old(self).properties),
                prop_entries(patch.properties),
            ),
    {
        self.patch_from(patch, "replace");
        self.patch_from(patch, "insert");
        let k1 = intern_key("insert");
        let k2 = intern_key("replace");
        let k3 = intern_key("include");
        let k4 = intern_key("$include");
        proof {
            reveal_strlit("insert");
            reveal_strlit("replace");
            reveal_strlit("include");
            reveal_strlit("$include");
            crate::text::lemma_lower_ascii_id("insert"@);
            crate::text::lemma_lower_ascii_id("replace"@);
            crate::text::lemma_lower_ascii_id("include"@);
            crate::text::lemma_lower_ascii_id("$include"@);
        }
        assert(k1@ == "insert"@);
        assert(k2@ == "replace"@);
        assert(k3@ == "include"@);
        assert(k4@ == "$include"@);
        Self::remove_exact(&mut self.properties, k1.as_str());
        Self::remove_exact(&mut self.properties, k2.as_str());
        Self::remove_exact(&mut self.properties, k3.as_str());
        Self::remove_exact(&mut self.properties, k4.as_str());
    }

    /// The properties as the entries of a KeyValues block.
    fn property_entries(&self) -> (es: Vec<Entry>)
        ensures
            entries_tree(es@) == prop_entries(self.properties),
    {
        let ghost p = prop_entries(self.properties);
        let n = pmap_len(&self.properties);
        let mut es: Vec<Entry> = Vec::new();
        let mut i: usize = 0;
        assert(entries_tree(es@) =~= p.take(0));
        while i < n
            invariant
                i <= n,
                n == p.len(),
                p == prop_entries(self.properties),
                entries_tree(es@) == p.take(i as int),
            decreases n - i,
        {
            match pmap_get_index(&self.properties, i) {
                Some((k, vs)) => {
                    let ghost e0 = es@;
                    es.push(Entry { key: k.clone(), values: clone_values(vs) });
                    assert(es@.drop_last() =~= e0);
                },
                None => {},
            }
            assert(p.take(i + 1).drop_last() =~= p.take(i as int));
            i = i + 1;
        }
        assert(p.take(n as int) =~= p);
        es
    }

    /// Writes the material as KeyValues text.
    pub fn to_string(&self) -> (r: Result<String, Error>)
        ensures
            r is Ok && r->Ok_0@ == vmt_text(self.shader@, prop_entries(self.properties)),
    {
        let props = self.property_entries();
        let mut vs: Vec<Value> = Vec::new();
        vs.push(Value::Obj(props));
        let mut root: Vec<Entry> = Vec::new();
        root.push(Entry { key: self.shader.clone(), values: vs });
        let doc = Value::Obj(root);
        proof {
            let pe = prop_entries(self.properties);
            assert(values_tree(vs@).len() == 1);
            assert(values_tree(vs@) =~= seq![KvTree::Obj(pe)]);
            assert(entries_tree(root@).len() == 1);
            assert(entries_tree(root@)[0] == (self.shader@, seq![KvTree::Obj(pe)]));
            assert(entries_tree(root@) =~= seq![(self.shader@, seq![KvTree::Obj(pe)])]);
        }
        crate::kv::ser::to_string(&doc)
    }
}

/// Whether a lookup of `key` finds the entry that setting `key` writes:
/// always for a key without sigil; for a `$` key where there is no entry
/// under its bare name; for a `%` key where there is none under its bare
/// name or its `$` name.
pub open spec fn set_key_found(props: KvMap, key: Seq<char>) -> bool {
    let lk = unicode_lowercase(key);
    let base = bare(lk);
    !has_sigil(lk) || (first_key(props, base) < 0 && (lk[0] == '%' ==> first_key(props, seq!['$'] + base) < 0))
}

/// What `set_string` writes, `get_string` reads back: after the value is
/// put under the lower-case form of a key, the string under the key is the
/// value, where the lookup finds that entry (see [`set_key_found`]).
pub proof fn lemma_get_string_after_set(props: KvMap, key: Seq<char>, value: Seq<char>)
    requires
        set_key_found(props, key),
    ensures
        string_of(put(props, unicode_lowercase(key), seq![KvTree::Str(value)]), key) == Some(value),
{
    let lk = unicode_lowercase(key);
    let v = seq![KvTree::Str(value)];
    let m = put(props, lk, v);
    lemma_put_found(props, lk, v);
    if has_sigil(lk) {
        let base = bare(lk);
        assert(base.len() + 1 == lk.len());
        lemma_put_other(props, lk, v, base);
        if lk[0] == '$' {
            assert(seq!['$'] + base =~= lk);
        } else {
            assert(seq!['%'] + base =~= lk);
            assert((seq!['$'] + base)[0] != lk[0]);
            lemma_put_other(props, lk, v, seq!['$'] + base);
        }
    }
}

/// What `set_flag` writes, `get_bool` reads back, where the lookup finds
/// the entry written (see [`set_key_found`]).
pub proof fn lemma_get_bool_after_set_flag(props: KvMap, key: Seq<char>, enabled: bool)
    requires
        set_key_found(props, key),
    ensures
        ({
            let s = string_of(
                put(props, unicode_lowercase(key), seq![KvTree::Str(if enabled { seq!['1'] } else { seq!['0'] })]),
                key,
            );
            (match s {
                Some(t) => t == "1"@ || t == "true"@ || t == "yes"@,
                None => false,
            }) == enabled
        }),
{
    let t = if enabled {
        seq!['1']
    } else {
        seq!['0']
    };
    lemma_get_string_after_set(props, key, t);
    reveal_strlit("1");
    reveal_strlit("true");
    reveal_strlit("yes");
    if enabled {
        assert(t =~= "1"@);
    } else {
        assert(t != "1"@) by {
            assert(t[0] != "1"@[0]);
        }
        assert(t != "true"@) by {
            assert(t.len() != "true"@.len());
        }
        assert(t != "yes"@) by {
            assert(t.len() != "yes"@.len());
        }
    }
}

impl Vmt {
    /// The material that a `patch` material builds on: its `include`, or
    /// else its `$include`.
    pub fn patch_include(&self) -> (r: Option<String>)
        ensures
            match string_of(prop_entries(self.properties), "include"@) {
                Some(s) => r is Some && r->0@ == s,
                None => match string_of(prop_entries(self.properties), "$include"@) {
                    Some(s) => r is Some && r->0@ == s,
                    None => r is None,
                },
            },
    {
        match self.get_string("include") {
            Some(s) => Some(s),
            None => self.get_string("$include"),
        }
    }
}

} // verus!
