//! Saving and reloading: the text that blocks are written as is a
//! KeyValues document, and reading that document gives the blocks back.
//!
//! A written block is described by its layout: the lines of its pairs, each
//! value already cut into the pieces written one per line, and its nested
//! blocks, in the order of the text. The document a layout is the text of
//! groups the pieces of a pair under its key and the runs of nested blocks
//! of one name under that name.

use vstd::prelude::*;
use crate::kv::grammar::{KvMap, sat};
use crate::kv::ser::{entries_text, tabs, value_text, values_text};
use crate::kv::value::KvTree;
use crate::kv::read_back::{wf_entries, wf_value, wf_values};
use crate::kv::grammar::{key_pos, lemma_key_pos_range};
use crate::ordmap::{first_key, lemma_first_key, put};
use crate::vmf::block::{BlockTree, REPEATED_KEY_SEP, kv_lines};
use crate::vmf::parse_ctx::join_with;
use crate::vmf::parser::{add_str, entry_pairs, map_blocks, map_pairs, strs_into, tree_block, values_blocks};
use crate::vmf::utils::Pairs;
use crate::kv::read_back::lemma_read_back;
use crate::kv::grammar::parse_kv;
use crate::vmf::block::{block_text, blocks_text, kv_text, lemma_join_split, pairs_text, split};
use crate::vmf::file::{VmfParts, empty_parts, root_blocks, root_text, vmf_fold, vmf_of};
use crate::vmf::file_trip::{lemma_fold_plain, root_names};
use crate::vmf::typed::named;

verus! {

/// The layout of written text: the lines of a pair (its key and the pieces
/// of its value), or a block with its name and contents.
pub enum Lay {
    Line(Seq<char>, Seq<Seq<char>>),
    Node(Seq<char>, Seq<Lay>),
}

/// The text of a layout at indentation `level`.
pub open spec fn lay_text(l: Lay, level: nat) -> Seq<char>
    decreases l, 0nat,
{
    match l {
        Lay::Line(k, ps) => kv_lines(tabs(level), k, ps),
        Lay::Node(n, its) => tabs(level) + n + seq!['\n'] + tabs(level) + seq!['{', '\n'] + items_text(
            its,
            (if level >= usize::MAX { usize::MAX as nat } else { level + 1 }),
        ) + tabs(level) + seq!['}', '\n'],
    }
}

/// The texts of layouts in order, all at indentation `level`.
pub open spec fn items_text(items: Seq<Lay>, level: nat) -> Seq<char>
    decreases items, 1nat,
{
    if items.len() == 0 {
        Seq::empty()
    } else {
        items_text(items.drop_last(), level) + lay_text(items.last(), level)
    }
}

/// The strings of pieces.
pub open spec fn strs(ps: Seq<Seq<char>>) -> Seq<KvTree> {
    ps.map_values(|p: Seq<char>| KvTree::Str(p))
}

/// Whether the item before the last one is a block named `n`.
pub open spec fn follows_node(items: Seq<Lay>, n: Seq<char>) -> bool {
    &&& items.len() >= 2
    &&& items[items.len() - 2] is Node
    &&& items[items.len() - 2]->Node_0 == n
}

/// The document entries that layouts are the text of: the pieces of each
/// pair under its key, and each run of blocks of one name under that name.
pub open spec fn lay_kv(items: Seq<Lay>) -> KvMap
    decreases items, 1nat,
{
    if items.len() == 0 {
        Seq::empty()
    } else {
        let m = lay_kv(items.drop_last());
        match items.last() {
            Lay::Line(k, ps) => m.push((k, strs(ps))),
            Lay::Node(n, its) => {
                let v = node_value(items.last());
                if follows_node(items, n) && m.len() > 0 {
                    m.update(m.len() - 1, (n, m.last().1.push(v)))
                } else {
                    m.push((n, seq![v]))
                }
            },
        }
    }
}

/// The document value of a block layout.
pub open spec fn node_value(l: Lay) -> KvTree
    decreases l, 0nat,
{
    match l {
        Lay::Node(_, its) => KvTree::Obj(lay_kv(its)),
        Lay::Line(_, ps) => KvTree::Obj(Seq::empty()),
    }
}

proof fn lemma_next_level(level: nat)
    ensures
        sat(level + 1int) as nat == (if level >= usize::MAX { usize::MAX as nat } else { level + 1 }),
{
}

proof fn lemma_strs_text(ps: Seq<Seq<char>>, k: Seq<char>, level: nat)
    ensures
        values_text(strs(ps), k, level) == kv_lines(tabs(level), k, ps),
    decreases ps.len(),
{
    if ps.len() > 0 {
        lemma_strs_text(ps.drop_last(), k, level);
        assert(strs(ps).drop_last() =~= strs(ps.drop_last()));
        assert(value_text(strs(ps).last(), k, level) =~= tabs(level) + seq!['"'] + k + seq!['"', ' ', '"'] + ps.last()
            + seq!['"', '\n']);
    }
}

proof fn lemma_values_push(vs: Seq<KvTree>, v: KvTree, k: Seq<char>, level: nat)
    ensures
        values_text(vs.push(v), k, level) == values_text(vs, k, level) + value_text(v, k, level),
{
    assert(vs.push(v).drop_last() =~= vs);
}

/// The document that layouts are the text of is written as that text.
pub proof fn lemma_items_text(items: Seq<Lay>, level: nat)
    ensures
        entries_text(lay_kv(items), level) == items_text(items, level),
    decreases items, 1nat,
{
    if items.len() > 0 {
        let m = lay_kv(items.drop_last());
        lemma_items_text(items.drop_last(), level);
        match items.last() {
            Lay::Line(k, ps) => {
                lemma_strs_text(ps, k, level);
                assert(m.push((k, strs(ps))).drop_last() =~= m);
                assert(lay_kv(items) == m.push((k, strs(ps))));
                assert(lay_text(items.last(), level) == kv_lines(tabs(level), k, ps));
            },
            Lay::Node(n, its) => {
                lemma_node_text(items.last(), level);
                let v = node_value(items.last());
                assert(value_text(v, n, level) == lay_text(items.last(), level));
                if follows_node(items, n) && m.len() > 0 {
                    let m2 = m.update(m.len() - 1, (n, m.last().1.push(v)));
                    assert(m2.drop_last() =~= m.drop_last());
                    lemma_values_push(m.last().1, v, n, level);
                    lemma_last_key(items.drop_last());
                    assert(items.drop_last().last() == items[items.len() - 2]);
                    assert(m.last().0 == n);
                    assert(m2.last() == (n, m.last().1.push(v)));
                    assert(entries_text(m2, level) == entries_text(m.drop_last(), level) + values_text(
                        m.last().1.push(v),
                        n,
                        level,
                    ));
                    assert(entries_text(m, level) == entries_text(m.drop_last(), level) + values_text(
                        m.last().1,
                        n,
                        level,
                    ));
                    assert(lay_kv(items) == m2);
                } else {
                    assert(m.push((n, seq![v])).drop_last() =~= m);
                    assert(seq![v].drop_last() =~= Seq::<KvTree>::empty());
                    assert(lay_kv(items) == m.push((n, seq![v])));
                    lemma_values_push(Seq::empty(), v, n, level);
                    assert(Seq::<KvTree>::empty().push(v) =~= seq![v]);
                    assert(values_text(Seq::<KvTree>::empty(), n, level) =~= Seq::<char>::empty());
                    assert(values_text(seq![v], n, level) =~= value_text(v, n, level));
                }
            },
        }
    }
}

/// The last entry of the document of layouts ending in a block carries
/// that block's name.
proof fn lemma_last_key(items: Seq<Lay>)
    requires
        items.len() > 0,
    ensures
        lay_kv(items).len() > 0,
        items.last() is Node ==> lay_kv(items).last().0 == items.last()->Node_0,
{
}

/// A block layout is written as the text of its document value.
pub proof fn lemma_node_text(l: Lay, level: nat)
    requires
        l is Node,
    ensures
        value_text(node_value(l), l->Node_0, level) == lay_text(l, level),
    decreases l, 0nat,
{
    match l {
        Lay::Node(n, its) => {
            lemma_next_level(level);
            lemma_items_text(its, sat(level + 1int) as nat);
        },
        Lay::Line(_, _) => {},
    }
}

/// The value that the pieces of a pair are read as.
pub open spec fn piece_join(ps: Seq<Seq<char>>) -> Seq<char> {
    join_with(ps, seq![REPEATED_KEY_SEP])
}

/// The pairs of layouts, in order, each with its pieces joined.
pub open spec fn lay_pairs(items: Seq<Lay>) -> Pairs
    decreases items.len(),
{
    if items.len() == 0 {
        Seq::empty()
    } else {
        match items.last() {
            Lay::Line(k, ps) => lay_pairs(items.drop_last()).push((k, piece_join(ps))),
            Lay::Node(_, _) => lay_pairs(items.drop_last()),
        }
    }
}

/// The block a block layout describes.
pub open spec fn lay_block(l: Lay) -> BlockTree
    decreases l, 0nat,
{
    match l {
        Lay::Node(n, its) => BlockTree { name: n, kvs: lay_pairs(its), blocks: lay_blocks(its) },
        Lay::Line(k, _) => BlockTree { name: k, kvs: Seq::empty(), blocks: Seq::empty() },
    }
}

/// The blocks of layouts, in order.
pub open spec fn lay_blocks(items: Seq<Lay>) -> Seq<BlockTree>
    decreases items, 1nat,
{
    if items.len() == 0 {
        Seq::empty()
    } else {
        match items.last() {
            Lay::Line(_, _) => lay_blocks(items.drop_last()),
            Lay::Node(_, _) => lay_blocks(items.drop_last()).push(lay_block(items.last())),
        }
    }
}

/// Whether some entry of `m` has key `k`.
pub open spec fn has_key(m: KvMap, k: Seq<char>) -> bool {
    exists|j: int| 0 <= j < m.len() && (#[trigger] m[j]).0 == k
}

/// The last entry of the document of layouts ending in a block holds
/// blocks only, at least one.
proof fn lemma_node_entry(items: Seq<Lay>)
    requires
        items.len() > 0,
        items.last() is Node,
    ensures
        lay_kv(items).len() > 0,
        lay_kv(items).last().0 == items.last()->Node_0,
        lay_kv(items).last().1.len() > 0,
        forall|j: int| 0 <= j < lay_kv(items).last().1.len() ==> (#[trigger] lay_kv(items).last().1[j]) is Obj,
    decreases items.len(),
{
    let m = lay_kv(items.drop_last());
    let n = items.last()->Node_0;
    let v = node_value(items.last());
    if follows_node(items, n) && m.len() > 0 {
        assert(items.drop_last().last() == items[items.len() - 2]);
        lemma_node_entry(items.drop_last());
        let vs = m.last().1.push(v);
        assert forall|j: int| 0 <= j < vs.len() implies (#[trigger] vs[j]) is Obj by {
            if j < m.last().1.len() {
                assert(vs[j] == m.last().1[j]);
            }
        }
    }
}

proof fn lemma_strs_into_blocks(es: Pairs, k: Seq<char>, vs: Seq<KvTree>)
    requires
        forall|j: int| 0 <= j < vs.len() ==> (#[trigger] vs[j]) is Obj,
    ensures
        strs_into(es, k, vs) == es,
    decreases vs.len(),
{
    if vs.len() > 0 {
        lemma_strs_into_blocks(es, k, vs.drop_last());
        assert(vs.last() is Obj);
    }
}

proof fn lemma_entry_blocks(es: Pairs, k: Seq<char>, vs: Seq<KvTree>)
    requires
        forall|j: int| 0 <= j < vs.len() ==> (#[trigger] vs[j]) is Obj,
    ensures
        entry_pairs(es, k, vs) == es,
{
    lemma_strs_into_blocks(es, k, vs);
    if vs.len() == 1 {
        assert(vs[0] is Obj);
    }
}

proof fn lemma_first_key_push(es: Pairs, k: Seq<char>, x: Seq<char>)
    requires
        first_key(es, k) < 0,
    ensures
        first_key(es.push((k, x)), k) == es.len(),
{
    assert(es.push((k, x)).drop_last() =~= es);
}

proof fn lemma_strs_into_pieces(es: Pairs, k: Seq<char>, ps: Seq<Seq<char>>)
    requires
        first_key(es, k) < 0,
        ps.len() > 0,
    ensures
        strs_into(es, k, strs(ps)) == es.push((k, piece_join(ps))),
    decreases ps.len(),
{
    assert(strs(ps).drop_last() =~= strs(ps.drop_last()));
    assert(strs(ps).last() == KvTree::Str(ps.last()));
    assert(strs_into(es, k, strs(ps)) == add_str(strs_into(es, k, strs(ps.drop_last())), k, ps.last()));
    if ps.len() == 1 {
        assert(strs(ps.drop_last()) =~= Seq::<KvTree>::empty());
        assert(strs_into(es, k, strs(ps.drop_last())) == es);
        assert(piece_join(ps) == ps[0]);
    } else {
        lemma_strs_into_pieces(es, k, ps.drop_last());
        lemma_first_key_push(es, k, piece_join(ps.drop_last()));
        assert(es.push((k, piece_join(ps.drop_last()))).update(es.len() as int, (k, piece_join(ps.drop_last()) + seq![REPEATED_KEY_SEP] + ps.last())) =~= es.push((k, piece_join(ps))));
    }
}

proof fn lemma_values_blocks_push(k: Seq<char>, vs: Seq<KvTree>, v: KvTree)
    requires
        v is Obj,
    ensures
        values_blocks(k, vs.push(v)) == values_blocks(k, vs).push(tree_block(k, v)),
{
    assert(vs.push(v).drop_last() =~= vs);
}

proof fn lemma_values_blocks_strs(k: Seq<char>, ps: Seq<Seq<char>>)
    ensures
        values_blocks(k, strs(ps)) == Seq::<BlockTree>::empty(),
    decreases ps.len(),
{
    if ps.len() > 0 {
        assert(strs(ps).drop_last() =~= strs(ps.drop_last()));
        lemma_values_blocks_strs(k, ps.drop_last());
    }
}

proof fn lemma_wf_values_push(k: Seq<char>, vs: Seq<KvTree>, v: KvTree)
    ensures
        wf_values(k, vs.push(v)) == (wf_values(k, vs) && wf_value(k, v)),
{
    assert(vs.push(v).drop_last() =~= vs);
}

/// Reading the document of layouts gives their pairs, with the pieces of
/// each joined, and their blocks, in order.
pub proof fn lemma_items_read(items: Seq<Lay>)
    requires
        wf_entries(lay_kv(items)),
    ensures
        map_pairs(lay_kv(items)) == lay_pairs(items),
        map_blocks(lay_kv(items)) == lay_blocks(items),
        forall|i: int| 0 <= i < lay_pairs(items).len() ==> has_key(lay_kv(items), (#[trigger] lay_pairs(items)[i]).0),
    decreases items, 1nat,
{
    if items.len() > 0 {
        let m = lay_kv(items.drop_last());
        let mm = lay_kv(items);
        let pp = lay_pairs(items.drop_last());
        match items.last() {
            Lay::Line(k, ps) => {
                assert(mm == m.push((k, strs(ps))));
                assert(mm.drop_last() =~= m);
                assert(wf_entries(m));
                lemma_items_read(items.drop_last());
                assert(key_pos(m, k) < 0);
                lemma_key_pos_range(m, k);
                assert forall|i: int| 0 <= i < pp.len() implies (#[trigger] pp[i]).0 != k by {
                    assert(has_key(m, pp[i].0));
                    let j = choose|j: int| 0 <= j < m.len() && (#[trigger] m[j]).0 == pp[i].0;
                    assert(m[j].0 != k);
                }
                lemma_first_key(pp, k);
                assert(first_key(pp, k) < 0);
                assert(strs(ps).len() > 0);
                if ps.len() == 1 {
                    assert(strs(ps)[0] == KvTree::Str(ps[0]));
                    assert(piece_join(ps) == ps[0]);
                } else {
                    lemma_strs_into_pieces(pp, k, ps);
                }
                assert(map_pairs(mm) == entry_pairs(map_pairs(m), k, strs(ps)));
                lemma_values_blocks_strs(k, ps);
                assert(map_blocks(mm) =~= map_blocks(m) + values_blocks(k, strs(ps)));
                let lp = lay_pairs(items);
                assert forall|i: int| 0 <= i < lp.len() implies has_key(mm, (#[trigger] lp[i]).0) by {
                    if i < pp.len() {
                        assert(lp[i] == pp[i]);
                        assert(has_key(m, pp[i].0));
                        let j = choose|j: int| 0 <= j < m.len() && (#[trigger] m[j]).0 == pp[i].0;
                        assert(mm[j] == m[j]);
                    } else {
                        assert(mm[m.len() as int].0 == k);
                    }
                }
            },
            Lay::Node(n, its) => {
                let v = node_value(items.last());
                lemma_node_entry(items);
                if follows_node(items, n) && m.len() > 0 {
                    let vs = m.last().1;
                    assert(mm == m.update(m.len() - 1, (n, vs.push(v))));
                    assert(items.drop_last().last() == items[items.len() - 2]);
                    lemma_node_entry(items.drop_last());
                    assert(mm.drop_last() =~= m.drop_last());
                    assert(mm.last() == (n, vs.push(v)));
                    lemma_wf_values_push(n, vs, v);
                    assert(wf_entries(m));
                    lemma_items_read(items.drop_last());
                    assert forall|j: int| 0 <= j < vs.push(v).len() implies (#[trigger] vs.push(v)[j]) is Obj by {
                        assert(mm.last().1[j] is Obj);
                    }
                    lemma_entry_blocks(map_pairs(m.drop_last()), n, vs);
                    lemma_entry_blocks(map_pairs(m.drop_last()), n, vs.push(v));
                    assert(map_pairs(mm) == map_pairs(m));
                    assert(wf_value(n, v));
                    lemma_items_read(its);
                    lemma_values_blocks_push(n, vs, v);
                    assert(map_blocks(mm) =~= map_blocks(m.drop_last()) + values_blocks(n, vs.push(v)));
                    assert(map_blocks(m) =~= map_blocks(m.drop_last()) + values_blocks(n, vs));
                    assert(tree_block(n, v) == lay_block(items.last()));
                    assert forall|i: int| 0 <= i < pp.len() implies has_key(mm, (#[trigger] pp[i]).0) by {
                        assert(has_key(m, pp[i].0));
                        let j = choose|j: int| 0 <= j < m.len() && (#[trigger] m[j]).0 == pp[i].0;
                        assert(mm[j].0 == m[j].0);
                    }
                } else {
                    assert(mm == m.push((n, seq![v])));
                    assert(mm.drop_last() =~= m);
                    assert(wf_entries(m));
                    lemma_items_read(items.drop_last());
                    lemma_wf_values_push(n, Seq::empty(), v);
                    assert(Seq::<KvTree>::empty().push(v) =~= seq![v]);
                    assert(wf_value(n, v));
                    lemma_items_read(its);
                    lemma_entry_blocks(map_pairs(m), n, seq![v]);
                    lemma_values_blocks_push(n, Seq::empty(), v);
                    assert(map_blocks(mm) =~= map_blocks(m) + values_blocks(n, seq![v]));
                    assert(tree_block(n, v) == lay_block(items.last()));
                    assert forall|i: int| 0 <= i < pp.len() implies has_key(mm, (#[trigger] pp[i]).0) by {
                        assert(has_key(m, pp[i].0));
                        let j = choose|j: int| 0 <= j < m.len() && (#[trigger] m[j]).0 == pp[i].0;
                        assert(mm[j] == m[j]);
                    }
                }
            },
        }
    }
}

/// Reading a document of block layouts at the top gives their blocks, in
/// order.
proof fn lemma_root_read(items: Seq<Lay>)
    requires
        wf_entries(lay_kv(items)),
        forall|i: int| 0 <= i < items.len() ==> (#[trigger] items[i]) is Node,
    ensures
        root_blocks(lay_kv(items)) == lay_blocks(items),
    decreases items.len(),
{
    if items.len() > 0 {
        let m = lay_kv(items.drop_last());
        let mm = lay_kv(items);
        let l = items.last();
        assert(l is Node);
        let n = l->Node_0;
        let its = l->Node_1;
        let v = node_value(l);
        lemma_node_entry(items);
        assert forall|i: int| 0 <= i < items.drop_last().len() implies (#[trigger] items.drop_last()[i]) is Node by {
            assert(items.drop_last()[i] == items[i]);
        }
        if follows_node(items, n) && m.len() > 0 {
            let vs = m.last().1;
            assert(mm == m.update(m.len() - 1, (n, vs.push(v))));
            assert(mm.drop_last() =~= m.drop_last());
            assert(mm.last() == (n, vs.push(v)));
            assert(items.drop_last().last() == items[items.len() - 2]);
            lemma_node_entry(items.drop_last());
            lemma_wf_values_push(n, vs, v);
            assert(wf_entries(m));
            lemma_root_read(items.drop_last());
            assert(wf_value(n, v));
            lemma_items_read(its);
            assert(tree_block(n, v) == lay_block(l));
            assert(vs.push(v).map_values(|t: KvTree| tree_block(n, t)) =~= vs.map_values(|t: KvTree| tree_block(n, t)).push(
                tree_block(n, v),
            ));
            assert(root_blocks(mm) =~= root_blocks(m.drop_last()) + vs.push(v).map_values(|t: KvTree| tree_block(n, t)));
            assert(root_blocks(m) =~= root_blocks(m.drop_last()) + vs.map_values(|t: KvTree| tree_block(n, t)));
        } else {
            assert(mm == m.push((n, seq![v])));
            assert(mm.drop_last() =~= m);
            assert(wf_entries(m));
            lemma_root_read(items.drop_last());
            lemma_wf_values_push(n, Seq::empty(), v);
            assert(Seq::<KvTree>::empty().push(v) =~= seq![v]);
            assert(wf_value(n, v));
            lemma_items_read(its);
            assert(tree_block(n, v) == lay_block(l));
            assert(seq![v].map_values(|t: KvTree| tree_block(n, t)) =~= seq![tree_block(n, v)]);
            assert(root_blocks(mm) =~= root_blocks(m) + seq![v].map_values(|t: KvTree| tree_block(n, t)));
        }
    }
}

/// The lines a block's pairs are written as: each value cut at
/// [`REPEATED_KEY_SEP`].
pub open spec fn pair_lines(kvs: Pairs) -> Seq<Lay> {
    kvs.map_values(|p: (Seq<char>, Seq<char>)| Lay::Line(p.0, split(p.1, REPEATED_KEY_SEP)))
}

/// The layout a block is written in: its pairs, then its nested blocks.
pub open spec fn lay_of(b: BlockTree) -> Lay
    decreases b, 0nat,
{
    Lay::Node(b.name, pair_lines(b.kvs) + lays_of(b.blocks))
}

/// The layouts of blocks, in order.
pub open spec fn lays_of(bs: Seq<BlockTree>) -> Seq<Lay>
    decreases bs, 1nat,
{
    if bs.len() == 0 {
        Seq::empty()
    } else {
        lays_of(bs.drop_last()).push(lay_of(bs.last()))
    }
}

/// Whether block `b` written at `level` nests no deeper than the largest
/// indentation a `usize` can count.
pub open spec fn fits(b: BlockTree, level: nat) -> bool
    decreases b, 0nat,
{
    level < usize::MAX && all_fit(b.blocks, level + 1)
}

/// Whether all of `bs` written at `level` fit.
pub open spec fn all_fit(bs: Seq<BlockTree>, level: nat) -> bool
    decreases bs, 1nat,
{
    if bs.len() == 0 {
        true
    } else {
        all_fit(bs.drop_last(), level) && fits(bs.last(), level)
    }
}

proof fn lemma_items_concat(a: Seq<Lay>, b: Seq<Lay>, level: nat)
    ensures
        items_text(a + b, level) == items_text(a, level) + items_text(b, level),
        lay_pairs(a + b) == lay_pairs(a) + lay_pairs(b),
        lay_blocks(a + b) == lay_blocks(a) + lay_blocks(b),
    decreases b.len(),
{
    if b.len() == 0 {
        assert(a + b =~= a);
    } else {
        lemma_items_concat(a, b.drop_last(), level);
        assert((a + b).drop_last() =~= a + b.drop_last());
        assert((a + b).last() == b.last());
    }
}

proof fn lemma_pair_lines(kvs: Pairs, level: nat)
    ensures
        items_text(pair_lines(kvs), level + 1) == pairs_text(tabs(level) + seq!['\t'], kvs),
        lay_pairs(pair_lines(kvs)) == kvs,
        lay_blocks(pair_lines(kvs)) == Seq::<BlockTree>::empty(),
    decreases kvs.len(),
{
    if kvs.len() > 0 {
        lemma_pair_lines(kvs.drop_last(), level);
        assert(pair_lines(kvs).drop_last() =~= pair_lines(kvs.drop_last()));
        lemma_join_split(kvs.last().1, REPEATED_KEY_SEP);
        assert(tabs(level + 1) =~= tabs(level) + seq!['\t']);
        assert(lay_pairs(pair_lines(kvs)) =~= kvs);
        let l = pair_lines(kvs).last();
        assert(l == Lay::Line(kvs.last().0, split(kvs.last().1, REPEATED_KEY_SEP)));
        assert(lay_text(l, level + 1) == kv_text(tabs(level) + seq!['\t'], kvs.last().0, kvs.last().1));
    }
}

/// A block's layout describes the block.
pub proof fn lemma_lay_of_block(b: BlockTree)
    ensures
        lay_block(lay_of(b)) == b,
    decreases b, 0nat,
{
    lemma_lays_of_blocks(b.blocks);
    lemma_pair_lines(b.kvs, 0);
    lemma_items_concat(pair_lines(b.kvs), lays_of(b.blocks), 0);
    assert(b.kvs + Seq::<(Seq<char>, Seq<char>)>::empty() =~= b.kvs);
    assert(Seq::<BlockTree>::empty() + b.blocks =~= b.blocks);
}

/// The layouts of blocks are all block layouts and describe the blocks.
pub proof fn lemma_lays_of_blocks(bs: Seq<BlockTree>)
    ensures
        lay_blocks(lays_of(bs)) == bs,
        lay_pairs(lays_of(bs)) == Seq::<(Seq<char>, Seq<char>)>::empty(),
        lays_of(bs).len() == bs.len(),
        forall|i: int| 0 <= i < bs.len() ==> (#[trigger] lays_of(bs)[i]) is Node,
    decreases bs, 1nat,
{
    if bs.len() > 0 {
        lemma_lays_of_blocks(bs.drop_last());
        lemma_lay_of_block(bs.last());
        assert(lays_of(bs).drop_last() =~= lays_of(bs.drop_last()));
        assert(bs.drop_last().push(bs.last()) =~= bs);
        assert forall|i: int| 0 <= i < bs.len() implies (#[trigger] lays_of(bs)[i]) is Node by {
            if i < bs.len() - 1 {
                assert(lays_of(bs)[i] == lays_of(bs.drop_last())[i]);
            }
        }
    }
}

/// A block's layout is written as the block's text, while the block fits.
pub proof fn lemma_lay_of_text(b: BlockTree, level: nat)
    requires
        fits(b, level),
    ensures
        lay_text(lay_of(b), level) == block_text(b, level),
    decreases b, 0nat,
{
    lemma_lays_of_text(b.blocks, level + 1);
    lemma_pair_lines(b.kvs, level);
    lemma_items_concat(pair_lines(b.kvs), lays_of(b.blocks), level + 1);
}

/// The layouts of blocks are written as the blocks' texts, while they fit.
pub proof fn lemma_lays_of_text(bs: Seq<BlockTree>, level: nat)
    requires
        all_fit(bs, level),
    ensures
        items_text(lays_of(bs), level) == blocks_text(bs, level),
    decreases bs, 1nat,
{
    if bs.len() > 0 {
        lemma_lays_of_text(bs.drop_last(), level);
        lemma_lay_of_text(bs.last(), level);
        assert(lays_of(bs).drop_last() =~= lays_of(bs.drop_last()));
    }
}

proof fn lemma_root_text(bs: Seq<BlockTree>)
    ensures
        root_text(bs) == blocks_text(bs, 0),
    decreases bs.len(),
{
    if bs.len() > 0 {
        lemma_root_text(bs.drop_last());
    }
}

/// Whether blocks written as a document read back as themselves: every
/// name can stand bare before a block and every key and value piece can
/// stand in quotes, keys are distinct within a block apart from runs of
/// blocks of one name (pair keys among them), and the blocks nest no deeper
/// than a `usize` counts.
pub open spec fn blocks_reload(bs: Seq<BlockTree>) -> bool {
    wf_entries(lay_kv(lays_of(bs))) && all_fit(bs, 0)
}

/// Root blocks of unknown kinds survive a save and reload: a map file that
/// holds only such blocks, written out and read again, holds them again,
/// in order.
pub proof fn lemma_kept_blocks_reload(bs: Seq<BlockTree>)
    requires
        blocks_reload(bs),
        forall|i: int, m: int| 0 <= i < bs.len() && 0 <= m < 9 ==> !named(#[trigger] bs[i], #[trigger] root_names()[m]),
    ensures
        vmf_of(root_text(bs)) == Ok::<VmfParts, crate::kv::grammar::Fail>(VmfParts { extra: bs, ..empty_parts() }),
{
    let items = lays_of(bs);
    let m = lay_kv(items);
    lemma_read_back(m);
    lemma_items_text(items, 0);
    lemma_lays_of_text(bs, 0);
    lemma_root_text(bs);
    assert(crate::kv::ser::kv_text(KvTree::Obj(m)) == entries_text(m, 0));
    lemma_lays_of_blocks(bs);
    lemma_root_read(items);
    lemma_fold_plain(Seq::empty(), bs);
    assert(Seq::<BlockTree>::empty() + bs =~= bs);
    assert(empty_parts().extra + bs =~= bs);
    assert(vmf_fold(Seq::<BlockTree>::empty()) == empty_parts());
}

} // verus!
