//! Reading a map file: KeyValues text into blocks, and blocks into the
//! typed structures.

use vstd::prelude::*;
use indexmap::IndexMap;
use crate::kv::grammar::KvMap;
use crate::kv::value::{Entry, KvTree, Value, entries_tree, values_tree, lemma_entries_tree, lemma_values_tree};
use crate::ordmap::{first_key, put, str_entries, smap_new, smap_get_index, smap_get_index_of, smap_insert};
use crate::text::push_char;
use crate::vmf::block::{BlockTree, REPEATED_KEY_SEP, VmfBlock, blocks_tree, lemma_blocks_tree};
use crate::vmf::utils::Pairs;

verus! {

broadcast use {lemma_entries_tree, lemma_values_tree, lemma_blocks_tree};

/// A string written under `k` once more: joined to the value of the pair
/// with key `k` by [`REPEATED_KEY_SEP`], or added as a new pair.
pub open spec fn add_str(es: Pairs, k: Seq<char>, s: Seq<char>) -> Pairs {
    let i = first_key(es, k);
    if i >= 0 {
        es.update(i, (k, es[i].1 + seq![REPEATED_KEY_SEP] + s))
    } else {
        es.push((k, s))
    }
}

/// The pairs after the string values among `vs` were added under `k`.
pub open spec fn strs_into(es: Pairs, k: Seq<char>, vs: Seq<KvTree>) -> Pairs
    decreases vs.len(),
{
    if vs.len() == 0 {
        es
    } else {
        let e = strs_into(es, k, vs.drop_last());
        match vs.last() {
            KvTree::Str(s) => add_str(e, k, s),
            KvTree::Obj(_) => e,
        }
    }
}

/// The pairs after the values of one entry: a single string value is
/// inserted; several values are joined.
pub open spec fn entry_pairs(es: Pairs, k: Seq<char>, vs: Seq<KvTree>) -> Pairs {
    if vs.len() == 1 {
        match vs[0] {
            KvTree::Str(s) => put(es, k, s),
            KvTree::Obj(_) => es,
        }
    } else {
        strs_into(es, k, vs)
    }
}

/// The pairs of a block read from the entries `m`.
pub open spec fn map_pairs(m: KvMap) -> Pairs
    decreases m.len(),
{
    if m.len() == 0 {
        Seq::empty()
    } else {
        entry_pairs(map_pairs(m.drop_last()), m.last().0, m.last().1)
    }
}

/// The block that a KeyValues value written under `name` becomes: a string
/// becomes a block holding the one pair; a block keeps its string values as
/// pairs and its block values as nested blocks, in order.
pub open spec fn tree_block(name: Seq<char>, t: KvTree) -> BlockTree
    decreases t, 0nat,
{
    match t {
        KvTree::Str(s) => BlockTree { name, kvs: seq![(name, s)], blocks: Seq::empty() },
        KvTree::Obj(m) => BlockTree { name, kvs: map_pairs(m), blocks: map_blocks(m) },
    }
}

/// The nested blocks of the entries `m`, in order.
pub open spec fn map_blocks(m: KvMap) -> Seq<BlockTree>
    decreases m, 1nat,
{
    if m.len() == 0 {
        Seq::empty()
    } else {
        map_blocks(m.drop_last()) + values_blocks(m.last().0, m.last().1)
    }
}

/// The nested blocks of the block values among `vs`, written under `k`.
pub open spec fn values_blocks(k: Seq<char>, vs: Seq<KvTree>) -> Seq<BlockTree>
    decreases vs, 1nat,
{
    if vs.len() == 0 {
        Seq::empty()
    } else {
        values_blocks(k, vs.drop_last()) + match vs.last() {
            KvTree::Obj(_) => seq![tree_block(k, vs.last())],
            KvTree::Str(_) => Seq::empty(),
        }
    }
}

/// Adds `s` under `key`, joining it to an existing value.
pub(crate) fn push_value(kv: &mut IndexMap<String, String>, key: &str, s: &str)
    ensures
        str_entries(*final(kv)) == add_str(str_entries(*old(kv)), key@, s@),
{
    match smap_get_index_of(kv, key) {
        Some(i) => {
            let mut v = match smap_get_index(kv, i) {
                Some((_, v)) => v.clone(),
                None => String::new(),
            };
            let ghost v0 = v@;
            push_char(&mut v, REPEATED_KEY_SEP);
            v.append(s);
            assert(v@ =~= v0 + seq![REPEATED_KEY_SEP] + s@);
            let _ = smap_insert(kv, key.to_string(), v);
        },
        None => {
            let _ = smap_insert(kv, key.to_string(), s.to_string());
        },
    }
}

/// Adds a block at the end of a list.
fn push_block(blocks: &mut Vec<VmfBlock>, b: VmfBlock)
    ensures
        blocks_tree(final(blocks)@) == blocks_tree(old(blocks)@).push(b@),
{
    blocks.push(b);
    assert(blocks@.drop_last() =~= old(blocks)@);
}

proof fn lemma_value_decreases(value: &Value, es: Vec<Entry>, i: int, j: int)
    requires
        *value == Value::Obj(es),
        0 <= i < es@.len(),
        0 <= j < es@[i].values@.len(),
    ensures
        decreases_to!(value => es@[i].values@[j]),
{
    assert(decreases_to!(value => value->Obj_0));
    assert(decreases_to!(es => es@));
    assert(decreases_to!(es@ => es@[i]));
    assert(decreases_to!(es@[i] => es@[i].values));
    assert(decreases_to!(es@[i].values => es@[i].values@));
    assert(decreases_to!(es@[i].values@ => es@[i].values@[j]));
}

/// Converts a KeyValues value written under `name` into a [`VmfBlock`].
pub fn value_to_vmf_block(name: String, value: &Value) -> (b: VmfBlock)
    ensures
        b@ == tree_block(name@, value@),
    decreases value, 0nat,
{
    match value {
        Value::Str(s) => {
            let mut kv = smap_new();
            let _ = smap_insert(&mut kv, name.clone(), s.clone());
            assert(str_entries(kv) =~= seq![(name@, s@)]);
            let b = VmfBlock { name, key_values: kv, blocks: Vec::new() };
            assert(b@.blocks =~= Seq::<BlockTree>::empty());
            b
        },
        Value::Obj(es) => {
            let mut kv = smap_new();
            let mut blocks: Vec<VmfBlock> = Vec::new();
            let ghost m = entries_tree(es@);
            let mut i: usize = 0;
            assert(blocks_tree(blocks@) =~= Seq::<BlockTree>::empty());
            while i < es.len()
                invariant
                    i <= es@.len(),
                    m == entries_tree(es@),
                    value == Value::Obj(*es),
                    str_entries(kv) == map_pairs(m.take(i as int)),
                    blocks_tree(blocks@) == map_blocks(m.take(i as int)),
                decreases es.len() - i,
            {
                assert(m.take(i + 1).drop_last() =~= m.take(i as int));
                let key = &es[i].key;
                let vs = &es[i].values;
                let ghost vt = values_tree(vs@);
                let ghost p0 = str_entries(kv);
                let ghost b0 = blocks_tree(blocks@);
                if vs.len() == 1 {
                    assert(vt.take(1) =~= vt);
                    match &vs[0] {
                        Value::Str(s) => {
                            let _ = smap_insert(&mut kv, key.clone(), s.clone());
                        },
                        Value::Obj(_) => {
                            proof {
                                lemma_value_decreases(value, *es, i as int, 0);
                            }
                            let b = value_to_vmf_block(key.clone(), &vs[0]);
                            push_block(&mut blocks, b);
                        },
                    }
                    assert(values_blocks(key@, vt) =~= values_blocks(key@, vt.drop_last()) + values_blocks(
                        key@,
                        vt,
                    ).skip(values_blocks(key@, vt.drop_last()).len() as int));
                    assert(vt.drop_last() =~= Seq::<KvTree>::empty());
                    assert(blocks_tree(blocks@) =~= b0 + values_blocks(key@, vt));
                } else {
                    let mut j: usize = 0;
                    assert(vt.take(0) =~= Seq::<KvTree>::empty());
                    assert(b0 + values_blocks(key@, vt.take(0)) =~= b0);
                    while j < vs.len()
                        invariant
                            j <= vs@.len(),
                            i < es@.len(),
                            value == Value::Obj(*es),
                            vs == &es@[i as int].values,
                            key == &es@[i as int].key,
                            vt == values_tree(vs@),
                            str_entries(kv) == strs_into(p0, key@, vt.take(j as int)),
                            blocks_tree(blocks@) == b0 + values_blocks(key@, vt.take(j as int)),
                        decreases vs.len() - j,
                    {
                        assert(vt.take(j + 1).drop_last() =~= vt.take(j as int));
                        match &vs[j] {
                            Value::Str(s) => {
                                push_value(&mut kv, key.as_str(), s.as_str());
                                assert(b0 + values_blocks(key@, vt.take(j + 1)) =~= b0 + values_blocks(
                                    key@,
                                    vt.take(j as int),
                                ));
                            },
                            Value::Obj(_) => {
                                proof {
                                    lemma_value_decreases(value, *es, i as int, j as int);
                                }
                                let b = value_to_vmf_block(key.clone(), &vs[j]);
                                push_block(&mut blocks, b);
                                assert(b0 + values_blocks(key@, vt.take(j + 1)) =~= (b0 + values_blocks(
                                    key@,
                                    vt.take(j as int),
                                )).push(b@));
                            },
                        }
                        j = j + 1;
                    }
                    assert(vt.take(vs@.len() as int) =~= vt);
                }
                i = i + 1;
            }
            assert(m.take(es@.len() as int) =~= m);
            VmfBlock { name, key_values: kv, blocks }
        },
    }
}

} // verus!
