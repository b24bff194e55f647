//! Material proxies: the `Proxies` block of a material, read as a list and
//! extended one proxy at a time.

use vstd::prelude::*;
use indexmap::IndexMap;
use crate::kv::grammar::KvMap;
use crate::kv::value::{Entry, KvTree, Value, clone_entries, clone_values, entries_tree, values_tree,
    lemma_entries_tree, lemma_values_tree};
use crate::ordmap::{first_key, lemma_first_key, put, str_entries, prop_entries, smap_new, smap_insert,
    smap_get_index_of, smap_get_index, pmap_get_index_of, pmap_get_index, pmap_insert};
use crate::text::{str_eq, unicode_lowercase};
use crate::vmf::utils::Pairs;
use super::intern_key;
use super::material::{Vmt, raw_of};

verus! {

broadcast use {lemma_entries_tree, lemma_values_tree};

/// A proxy of a material: its name and its parameters, keys in lower case.
#[derive(Debug, Clone)]
pub struct Proxy {
    pub name: String,
    pub params: IndexMap<String, String>,
}

/// The parameters of a proxy block: the first value of each entry that is
/// a string, under the key in lower case.
pub open spec fn proxy_params(m: KvMap) -> Pairs
    decreases m.len(),
{
    if m.len() == 0 {
        Seq::empty()
    } else {
        let before = proxy_params(m.drop_last());
        let vs = m.last().1;
        if vs.len() > 0 {
            match vs[0] {
                KvTree::Str(s) => put(before, unicode_lowercase(m.last().0), s),
                KvTree::Obj(_) => before,
            }
        } else {
            before
        }
    }
}

/// The proxies that the values `insts` written under `name` give: one per
/// block.
pub open spec fn instance_proxies(name: Seq<char>, insts: Seq<KvTree>) -> Seq<(Seq<char>, Pairs)>
    decreases insts.len(),
{
    if insts.len() == 0 {
        Seq::empty()
    } else {
        let before = instance_proxies(name, insts.drop_last());
        match insts.last() {
            KvTree::Obj(m) => before.push((name, proxy_params(m))),
            KvTree::Str(_) => before,
        }
    }
}

/// The proxies of a `Proxies` block, in order.
pub open spec fn block_proxies(pm: KvMap) -> Seq<(Seq<char>, Pairs)>
    decreases pm.len(),
{
    if pm.len() == 0 {
        Seq::empty()
    } else {
        block_proxies(pm.drop_last()) + instance_proxies(pm.last().0, pm.last().1)
    }
}

/// The proxies of a material: those of the block that a lookup of
/// `proxies` finds.
pub open spec fn proxies_of(props: KvMap) -> Seq<(Seq<char>, Pairs)> {
    match raw_of(props, "proxies"@) {
        Some(KvTree::Obj(pm)) => block_proxies(pm),
        _ => Seq::empty(),
    }
}

/// The contents of a list of proxies.
pub open spec fn proxy_views(ps: Seq<Proxy>) -> Seq<(Seq<char>, Pairs)> {
    ps.map_values(|p: Proxy| (p.name@, str_entries(p.params)))
}

/// `v` added at the end of the values of the entry with key `k`, or as a
/// new entry.
pub open spec fn push_into(m: KvMap, k: Seq<char>, v: KvTree) -> KvMap {
    let j = first_key(m, k);
    if j >= 0 {
        m.update(j, (k, m[j].1.push(v)))
    } else {
        m.push((k, seq![v]))
    }
}

/// The block of a proxy with the parameters `params`, inserted in order.
pub open spec fn params_block(params: Seq<(Seq<char>, Seq<char>)>) -> KvMap
    decreases params.len(),
{
    if params.len() == 0 {
        Seq::empty()
    } else {
        put(params_block(params.drop_last()), params.last().0, seq![KvTree::Str(params.last().1)])
    }
}

/// The properties after a proxy `name` with `params` was added: the values
/// of `proxies` (an empty block where there is none) get the proxy under
/// the lower-case name in their first value, if that is a block.
pub open spec fn with_proxy(props: KvMap, name: Seq<char>, params: Seq<(Seq<char>, Seq<char>)>) -> KvMap {
    let i = first_key(props, "proxies"@);
    let vs = if i >= 0 {
        props[i].1
    } else {
        seq![KvTree::Obj(Seq::empty())]
    };
    let nvs = if vs.len() > 0 {
        match vs[0] {
            KvTree::Obj(m) => vs.update(0, KvTree::Obj(push_into(m, unicode_lowercase(name), KvTree::Obj(params_block(params))))),
            KvTree::Str(_) => vs,
        }
    } else {
        vs
    };
    put(props, "proxies"@, nvs)
}

/// The position of the entry with key `k`.
fn find_entry(es: &Vec<Entry>, k: &str) -> (r: Option<usize>)
    ensures
        r is Some ==> r->0 == first_key(entries_tree(es@), k@) && r->0 < es@.len(),
        r is None ==> first_key(entries_tree(es@), k@) < 0,
{
    let ghost m = entries_tree(es@);
    let mut i: usize = 0;
    proof {
        lemma_first_key(m, k@);
    }
    while i < es.len()
        invariant
            i <= es@.len(),
            m == entries_tree(es@),
            forall|j: int| 0 <= j < i ==> m[j].0 != k@,
        decreases es.len() - i,
    {
        if str_eq(es[i].key.as_str(), k) {
            proof {
                lemma_first_key_here(m, k@, i as int);
            }
            return Some(i);
        }
        i = i + 1;
    }
    proof {
        if first_key(m, k@) >= 0 {
            assert(m[first_key(m, k@)].0 == k@);
        }
    }
    None
}

proof fn lemma_first_key_here<V>(es: Seq<(Seq<char>, V)>, k: Seq<char>, i: int)
    requires
        0 <= i < es.len(),
        es[i].0 == k,
        forall|j: int| 0 <= j < i ==> es[j].0 != k,
    ensures
        first_key(es, k) == i,
    decreases es.len(),
{
    if i < es.len() - 1 {
        lemma_first_key_here(es.drop_last(), k, i);
    } else {
        lemma_first_key(es.drop_last(), k);
        if first_key(es.drop_last(), k) >= 0 {
            assert(es.drop_last()[first_key(es.drop_last(), k)] == es[first_key(es.drop_last(), k)]);
        }
    }
}

/// Sets the values of the entry with key `k`, or adds it at the end.
fn set_entry(es: &mut Vec<Entry>, k: String, vs: Vec<Value>)
    ensures
        entries_tree(final(es)@) == put(entries_tree(old(es)@), k@, values_tree(vs@)),
{
    let ghost m0 = entries_tree(es@);
    let ghost kv = k@;
    let ghost vt = values_tree(vs@);
    match find_entry(es, k.as_str()) {
        Some(i) => {
            let ghost e0 = es@;
            let _ = es.remove(i);
            es.insert(i, Entry { key: k, values: vs });
            assert(entries_tree(es@) =~= m0.update(i as int, (kv, vt))) by {
                assert forall|j: int| 0 <= j < es@.len() implies entries_tree(es@)[j] == m0.update(i as int, (kv, vt))[j] by {
                    if j != i {
                        assert(es@[j] == e0[j]);
                    }
                }
            }
        },
        None => {
            let ghost e0 = es@;
            es.push(Entry { key: k, values: vs });
            assert(es@.drop_last() =~= e0);
        },
    }
}

/// Adds `v` at the end of the values of the entry with key `k`.
fn push_value_into(es: &mut Vec<Entry>, k: String, v: Value)
    ensures
        entries_tree(final(es)@) == push_into(entries_tree(old(es)@), k@, v@),
{
    let ghost m0 = entries_tree(es@);
    match find_entry(es, k.as_str()) {
        Some(i) => {
            let mut vs = clone_values(&es[i].values);
            let ghost vt0 = values_tree(vs@);
            let ghost v0 = vs@;
            vs.push(v);
            assert(vs@.drop_last() =~= v0);
            proof {
                lemma_first_key(m0, k@);
            }
            set_entry(es, k, vs);
            proof {
                lemma_first_key(m0, k@);
            }
        },
        None => {
            let mut vs: Vec<Value> = Vec::new();
            vs.push(v);
            assert(values_tree(vs@) =~= seq![v@]);
            set_entry(es, k, vs);
        },
    }
}

impl Proxy {
    /// A proxy parameter, its key looked up in lower case.
    pub fn get_param(&self, key: &str) -> (r: Option<&String>)
        ensures
            ({
                let i = first_key(str_entries(self.params), unicode_lowercase(key@));
                if i >= 0 {
                    r is Some && r->0@ == str_entries(self.params)[i].1
                } else {
                    r is None
                }
            }),
    {
        let lower = intern_key(key);
        match smap_get_index_of(&self.params, lower.as_str()) {
            Some(i) => match smap_get_index(&self.params, i) {
                Some((_, v)) => Some(v),
                None => None,
            },
            None => None,
        }
    }
}

impl Vmt {
    /// All proxies of the material, in order: one per block written under
    /// each proxy name of the `Proxies` block.
    pub fn proxies(&self) -> (r: Vec<Proxy>)
        ensures
            proxy_views(r@) == proxies_of(prop_entries(self.properties)),
    {
        let mut result: Vec<Proxy> = Vec::new();
        assert(proxy_views(result@) =~= Seq::<(Seq<char>, Pairs)>::empty());
        proof {
            reveal_strlit("proxies");
        }
        match self.get_raw("proxies") {
            Some(Value::Obj(pm)) => {
                let ghost m = entries_tree(pm@);
                let mut i: usize = 0;
                assert(m.take(0) =~= Seq::<(Seq<char>, Seq<KvTree>)>::empty());
                while i < pm.len()
                    invariant
                        i <= pm@.len(),
                        m == entries_tree(pm@),
                        proxy_views(result@) == block_proxies(m.take(i as int)),
                    decreases pm.len() - i,
                {
                    assert(m.take(i + 1).drop_last() =~= m.take(i as int));
                    let insts = &pm[i].values;
                    let ghost it = values_tree(insts@);
                    let ghost r0 = proxy_views(result@);
                    let mut j: usize = 0;
                    assert(it.take(0) =~= Seq::<KvTree>::empty());
                    assert(r0 + instance_proxies(m[i as int].0, it.take(0)) =~= r0);
                    while j < insts.len()
                        invariant
                            j <= insts@.len(),
                            i < pm@.len(),
                            insts == &pm@[i as int].values,
                            it == values_tree(insts@),
                            m == entries_tree(pm@),
                            proxy_views(result@) == r0 + instance_proxies(m[i as int].0, it.take(j as int)),
                        decreases insts.len() - j,
                    {
                        assert(it.take(j + 1).drop_last() =~= it.take(j as int));
                        match &insts[j] {
                            Value::Obj(params_map) => {
                                let ghost pmv = entries_tree(params_map@);
                                let mut params = smap_new();
                                let mut k: usize = 0;
                                assert(pmv.take(0) =~= Seq::<(Seq<char>, Seq<KvTree>)>::empty());
                                while k < params_map.len()
                                    invariant
                                        k <= params_map@.len(),
                                        pmv == entries_tree(params_map@),
                                        str_entries(params) == proxy_params(pmv.take(k as int)),
                                    decreases params_map.len() - k,
                                {
                                    assert(pmv.take(k + 1).drop_last() =~= pmv.take(k as int));
                                    let vs = &params_map[k].values;
                                    if vs.len() > 0 {
                                        match &vs[0] {
                                            Value::Str(s) => {
                                                let key = intern_key(params_map[k].key.as_str());
                                                let _ = smap_insert(&mut params, key, s.clone());
                                            },
                                            Value::Obj(_) => {},
                                        }
                                    }
                                    k = k + 1;
                                }
                                assert(pmv.take(params_map@.len() as int) =~= pmv);
                                let ghost rv = result@;
                                result.push(Proxy { name: pm[i].key.clone(), params });
                                assert(result@.drop_last() =~= rv);
                                assert(proxy_views(result@) =~= proxy_views(rv).push(
                                    (pm@[i as int].key@, str_entries(params)),
                                ));
                            },
                            Value::Str(_) => {},
                        }
                        j = j + 1;
                    }
                    assert(it.take(insts@.len() as int) =~= it);
                    i = i + 1;
                }
                assert(m.take(pm@.len() as int) =~= m);
            },
            _ => {},
        }
        result
    }

    /// Adds a proxy named `name` (stored in lower case) with the parameters
    /// `params`, in order, to the `Proxies` block, creating the block where
    /// there is none.
    pub fn add_proxy(&mut self, name: &str, params: &[(&str, &str)])
        ensures
            final(self).shader == old(self).shader,
            prop_entries(final(self).properties) == with_proxy(
                prop_entries(old(self).properties),
                name@,
                params@.map_values(|p: (&str, &str)| (p.0@, p.1@)),
            ),
    {
        let ghost pv = params@.map_values(|p: (&str, &str)| (p.0@, p.1@));
        let name_lower = intern_key(name);
        let mut block: Vec<Entry> = Vec::new();
        let mut i: usize = 0;
        assert(pv.take(0) =~= Seq::<(Seq<char>, Seq<char>)>::empty());
        while i < params.len()
            invariant
                i <= params@.len(),
                pv == params@.map_values(|p: (&str, &str)| (p.0@, p.1@)),
                entries_tree(block@) == params_block(pv.take(i as int)),
            decreases params.len() - i,
        {
            assert(pv.take(i + 1).drop_last() =~= pv.take(i as int));
            let (k, v) = params[i];
            let mut vs: Vec<Value> = Vec::new();
            vs.push(Value::Str(v.to_string()));
            assert(values_tree(vs@) =~= seq![KvTree::Str(v@)]);
            set_entry(&mut block, k.to_string(), vs);
            i = i + 1;
        }
        assert(pv.take(params@.len() as int) =~= pv);
        let proxy_obj = Value::Obj(block);
        let key = intern_key("proxies");
        proof {
            reveal_strlit("proxies");
            crate::text::lemma_lower_ascii_id("proxies"@);
        }
        let mut values: Vec<Value> = match pmap_get_index_of(&self.properties, key.as_str()) {
            Some(idx) => match pmap_get_index(&self.properties, idx) {
                Some((_, vs)) => clone_values(vs),
                None => Vec::new(),
            },
            None => {
                let mut vs: Vec<Value> = Vec::new();
                vs.push(Value::Obj(Vec::new()));
                assert(values_tree(vs@) =~= seq![KvTree::Obj(Seq::empty())]);
                vs
            },
        };
        let ghost base = values_tree(values@);
        if values.len() > 0 {
            let first = match &values[0] {
                Value::Obj(m) => {
                    let mut m2 = clone_entries(m);
                    push_value_into(&mut m2, name_lower, proxy_obj);
                    Some(Value::Obj(m2))
                },
                Value::Str(_) => None,
            };
            match first {
                Some(f) => {
                    let ghost v0 = values@;
                    let ghost fv = f@;
                    let _ = values.remove(0);
                    values.insert(0, f);
                    assert(values_tree(values@) =~= base.update(0, fv)) by {
                        assert forall|j: int| 0 <= j < values@.len() implies values_tree(values@)[j] == base.update(0, fv)[j] by {
                            if j != 0 {
                                assert(values@[j] == v0[j]);
                            }
                        }
                    }
                },
                None => {},
            }
        }
        let _ = pmap_insert(&mut self.properties, key, values);
    }
}

} // verus!
