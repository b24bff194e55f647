//! Entities of a map file: their pairs, connections, solids and editor
//! data.

use vstd::prelude::*;
use indexmap::IndexMap;
use crate::kv::ser::tabs;
use crate::ordmap::{first_key, lemma_first_key, put, str_entries, smap_new, smap_insert, smap_get_index,
    smap_get_index_of, smap_shift_remove_index, smap_swap_remove_index};
use crate::text::{dec, dec_int, eq_ignore_ascii_case, i64_to_string, str_eq, u64_to_string};
use crate::vmf::block::{BlockTree, Extras, VmfBlock, blocks_text, blocks_tree, lemma_blocks_tree, pairs_text,
    tab_string, next_indent, next_level, write_pairs};
use crate::vmf::common::{Editor, EditorView, VmfSerializable, default_editor, editor_of, editor_text, extras_view};
use crate::vmf::connection::{ConnView, Connection, conn_views, conns_of_pairs, value_text};
use crate::vmf::parse_ctx::{CtxView, ParseCtx, indexed_segment, warned};
use crate::vmf::typed::{head_lines, head_text, into_queue, named, next_block, pair_line, tail_line, tail_text,
    write_head, write_pair, write_tail};
use crate::vmf::utils::{FieldValue, Pairs, at_path, entered, unexpected_msg};
use crate::vmf::world::{Solid, SolidView, hidden_solids_ctx, read_hidden_solids, solid_ctx, solid_of, solids_of,
    solids_text, solids_view};

verus! {

broadcast use {lemma_blocks_tree, crate::vmf::utils::group_ctx_paths};

/// The content of an [`Entity`].
pub struct EntityView {
    pub key_values: Pairs,
    pub connections: Option<Seq<ConnView>>,
    pub solids: Option<Seq<SolidView>>,
    pub editor: EditorView,
    pub is_hidden: bool,
    pub extra: (Pairs, Seq<BlockTree>),
}

/// Represents an entity of a map file.
#[derive(Debug, PartialEq)]
pub struct Entity {
    /// The key-value pairs associated with this entity.
    pub key_values: IndexMap<String, String>,
    /// The output connections of this entity.
    pub connections: Option<Vec<Connection>>,
    /// The solids associated with this entity, if any.
    pub solids: Option<Vec<Solid>>,
    /// The editor data for this entity.
    pub editor: Editor,
    /// Whether the entity is hidden in the editor: set for the entities of
    /// a `hidden` block, and not written back.
    pub is_hidden: bool,
    /// Blocks this struct does not model. Unknown keys land in `key_values`.
    pub extra: Extras,
}

impl View for Entity {
    type V = EntityView;

    open spec fn view(&self) -> EntityView {
        EntityView {
            key_values: str_entries(self.key_values),
            connections: match self.connections {
                Some(cs) => Some(conn_views(cs@)),
                None => None,
            },
            solids: match self.solids {
                Some(ss) => Some(solids_view(ss@)),
                None => None,
            },
            editor: self.editor@,
            is_hidden: self.is_hidden,
            extra: extras_view(self.extra),
        }
    }
}

/// The connections of a `connections` block; none for a block without
/// pairs.
pub open spec fn conns_of_block(kvs: Pairs) -> Option<Seq<ConnView>> {
    if kvs.len() == 0 {
        None
    } else {
        Some(conns_of_pairs(kvs))
    }
}

/// What the blocks of an entity give.
pub struct EntityParts {
    pub editor: EditorView,
    pub connections: Option<Seq<ConnView>>,
    pub solids: Seq<SolidView>,
    pub unknown: Seq<BlockTree>,
}

/// The parts of an entity after one more of its blocks: the last `editor`
/// block and the last `connections` block count; `solid` blocks and the
/// solids of `hidden` blocks are its solids, in order.
pub open spec fn entity_step(p: EntityParts, b: BlockTree) -> EntityParts {
    if named(b, "editor"@) {
        EntityParts { editor: editor_of(b), ..p }
    } else if named(b, "connections"@) {
        EntityParts { connections: conns_of_block(b.kvs), ..p }
    } else if named(b, "solid"@) {
        EntityParts { solids: p.solids.push(solid_of(b)), ..p }
    } else if named(b, "hidden"@) {
        EntityParts { solids: p.solids + solids_of(b.blocks), ..p }
    } else {
        EntityParts { unknown: p.unknown.push(b), ..p }
    }
}

pub open spec fn entity_blocks(bs: Seq<BlockTree>) -> EntityParts
    decreases bs.len(),
{
    if bs.len() == 0 {
        EntityParts { editor: default_editor(), connections: None, solids: Seq::empty(), unknown: Seq::empty() }
    } else {
        entity_step(entity_blocks(bs.drop_last()), bs.last())
    }
}

/// The entity read from an `entity` block: all its pairs, and what its
/// blocks give.
#[verifier::opaque]
pub open spec fn entity_of(b: BlockTree) -> EntityView {
    let p = entity_blocks(b.blocks);
    EntityView {
        key_values: b.kvs,
        connections: p.connections,
        solids: if p.solids.len() > 0 {
            Some(p.solids)
        } else {
            None
        },
        editor: p.editor,
        is_hidden: false,
        extra: (Seq::empty(), p.unknown),
    }
}

/// The context after reading one more block of an entity with parts `p`:
/// an editor block within `editor`, a solid within `solid[<n>]` where `n`
/// counts its solids so far, the solids of a `hidden` block, nothing for
/// its connections, and a warning about other blocks.
pub open spec fn entity_step_ctx(c: CtxView, p: EntityParts, b: BlockTree) -> CtxView {
    if named(b, "editor"@) {
        at_path(crate::vmf::common::editor_ctx(entered(c, "editor"@), b), c.path)
    } else if named(b, "connections"@) {
        c
    } else if named(b, "solid"@) {
        at_path(solid_ctx(entered(c, indexed_segment("solid"@, p.solids.len())), b), c.path)
    } else if named(b, "hidden"@) {
        hidden_solids_ctx(c, b.blocks, p.solids.len())
    } else {
        warned(c, unexpected_msg(b.name))
    }
}

/// The context after reading the blocks of an entity.
pub open spec fn entity_blocks_ctx(c: CtxView, bs: Seq<BlockTree>) -> CtxView
    decreases bs.len(),
{
    if bs.len() == 0 {
        c
    } else {
        entity_step_ctx(entity_blocks_ctx(c, bs.drop_last()), entity_blocks(bs.drop_last()), bs.last())
    }
}

/// The context after reading an `entity` block: the warnings of its
/// blocks.
pub open spec fn entity_ctx(c: CtxView, b: BlockTree) -> CtxView {
    entity_blocks_ctx(c, b.blocks)
}

/// The lines of connections after `indent`.
pub open spec fn conn_lines(indent: Seq<char>, cs: Seq<ConnView>) -> Seq<char>
    decreases cs.len(),
{
    if cs.len() == 0 {
        Seq::empty()
    } else {
        conn_lines(indent, cs.drop_last()) + pair_line(indent, cs.last().output, value_text(cs.last()))
    }
}

/// The text of an entity as a block at `level`: its pairs, its
/// connections, its solids, its editor data and its other blocks.
#[verifier::opaque]
pub open spec fn entity_text(e: EntityView, level: nat) -> Seq<char> {
    let inner = next_level(level);
    let ind = tabs(level) + seq!['\t'];
    head_text(level, "entity"@) + pairs_text(ind, e.key_values) + match e.connections {
        Some(cs) => head_lines(ind, "connections"@) + conn_lines(ind, cs) + tail_line(ind),
        None => Seq::empty(),
    } + match e.solids {
        Some(ss) => solids_text(ss, inner),
        None => Seq::empty(),
    } + editor_text(e.editor, inner) + blocks_text(e.extra.1, inner) + tail_text(level)
}

/// The value of the pair with key `k` exactly, if any.
pub open spec fn pair_value(kvs: Pairs, k: Seq<char>) -> Option<Seq<char>> {
    let i = first_key(kvs, k);
    if i >= 0 {
        Some(kvs[i].1)
    } else {
        None
    }
}

/// Reads one block of an entity into its parts.
fn entity_block_into(
    b: VmfBlock,
    editor: &mut Editor,
    connections: &mut Option<Vec<Connection>>,
    solids: &mut Vec<Solid>,
    unknown: &mut Vec<VmfBlock>,
    ctx: &mut ParseCtx,
)
    ensures
        entity_step(
            EntityParts {
                editor: old(editor)@,
                connections: match *old(connections) {
                    Some(cs) => Some(conn_views(cs@)),
                    None => None,
                },
                solids: solids_view(old(solids)@),
                unknown: blocks_tree(old(unknown)@),
            },
            b@,
        ) == (EntityParts {
            editor: final(editor)@,
            connections: match *final(connections) {
                Some(cs) => Some(conn_views(cs@)),
                None => None,
            },
            solids: solids_view(final(solids)@),
            unknown: blocks_tree(final(unknown)@),
        }),
        final(ctx)@ == entity_step_ctx(
            old(ctx)@,
            EntityParts {
                editor: old(editor)@,
                connections: match *old(connections) {
                    Some(cs) => Some(conn_views(cs@)),
                    None => None,
                },
                solids: solids_view(old(solids)@),
                unknown: blocks_tree(old(unknown)@),
            },
            b@,
        ),
        final(ctx)@.path == old(ctx)@.path,
{
    let ghost p = ctx@.path;
    if eq_ignore_ascii_case(b.name.as_str(), "editor") {
        ctx.enter("editor");
        *editor = Editor::from_block(b, ctx);
        ctx.leave();
    } else if eq_ignore_ascii_case(b.name.as_str(), "connections") {
        *connections = Connection::from_key_values(&b.key_values);
    } else if eq_ignore_ascii_case(b.name.as_str(), "solid") {
        ctx.enter_indexed("solid", solids.len());
        let s = Solid::from_block(b, ctx);
        ctx.leave();
        let ghost s0 = solids@;
        solids.push(s);
        assert(solids_view(solids@) =~= solids_view(s0).push(s@));
    } else if eq_ignore_ascii_case(b.name.as_str(), "hidden") {
        read_hidden_solids(b, solids, ctx);
    } else {
        let mut m = String::new();
        m.append("unexpected block '");
        m.append(b.name.as_str());
        m.append("', kept as-is");
        assert(m@ =~= unexpected_msg(b@.name));
        ctx.warn(m.as_str());
        let ghost u0 = unknown@;
        unknown.push(b);
        assert(unknown@.drop_last() =~= u0);
    }
    assert(ctx@.path =~= p);
}

impl Entity {
    /// Creates an entity with the specified classname and ID.
    pub fn new(classname: &str, id: u64) -> (e: Self)
        ensures
            e@ == (EntityView {
                key_values: seq![("classname"@, classname@), ("id"@, dec(id as nat))],
                connections: None,
                solids: None,
                editor: default_editor(),
                is_hidden: false,
                extra: (Seq::empty(), Seq::empty()),
            }),
    {
        let mut kv = smap_new();
        let _ = smap_insert(&mut kv, String::from_str("classname"), classname.to_string());
        assert(str_entries(kv) =~= seq![("classname"@, classname@)]);
        proof {
            reveal_strlit("classname");
            reveal_strlit("id");
            assert("classname"@.len() != "id"@.len());
            let one = seq![("classname"@, classname@)];
            assert(one.drop_last() =~= Seq::<(Seq<char>, Seq<char>)>::empty());
            assert(first_key(one.drop_last(), "id"@) == -1);
            assert(first_key(one, "id"@) == -1);
        }
        let _ = smap_insert(&mut kv, String::from_str("id"), u64_to_string(id));
        assert(str_entries(kv) =~= seq![("classname"@, classname@), ("id"@, dec(id as nat))]);
        let e = Entity {
            key_values: kv,
            connections: None,
            solids: None,
            editor: Editor::new(),
            is_hidden: false,
            extra: Extras::new(),
        };
        assert(e@.extra.0 =~= Seq::<(Seq<char>, Seq<char>)>::empty());
        assert(e@.extra.1 =~= Seq::<BlockTree>::empty());
        e
    }

    /// Sets a key-value pair; an existing key keeps its place.
    pub fn set(&mut self, key: String, value: String)
        ensures
            final(self)@ == (EntityView { key_values: put(old(self)@.key_values, key@, value@), ..old(self)@ }),
    {
        let _ = smap_insert(&mut self.key_values, key, value);
    }

    /// Removes a key-value pair, keeping the order of the other keys.
    pub fn remove_key(&mut self, key: &str) -> (r: Option<String>)
        ensures
            ({
                let i = first_key(old(self)@.key_values, key@);
                if i >= 0 {
                    r is Some && r->0@ == old(self)@.key_values[i].1 && final(self)@ == (EntityView {
                        key_values: old(self)@.key_values.remove(i),
                        ..old(self)@
                    })
                } else {
                    r is None && final(self)@ == old(self)@
                }
            }),
    {
        match smap_get_index_of(&self.key_values, key) {
            Some(i) => match smap_shift_remove_index(&mut self.key_values, i) {
                Some((_, v)) => Some(v),
                None => None,
            },
            None => None,
        }
    }

    /// Removes a key-value pair, moving the last pair into its place.
    pub fn swap_remove_key(&mut self, key: &str) -> (r: Option<String>)
        ensures
            ({
                let es = old(self)@.key_values;
                let i = first_key(es, key@);
                if i >= 0 {
                    r is Some && r->0@ == es[i].1 && final(self)@ == (EntityView {
                        key_values: es.update(i, es.last()).drop_last(),
                        ..old(self)@
                    })
                } else {
                    r is None && final(self)@ == old(self)@
                }
            }),
    {
        match smap_get_index_of(&self.key_values, key) {
            Some(i) => match smap_swap_remove_index(&mut self.key_values, i) {
                Some((_, v)) => Some(v),
                None => None,
            },
            None => None,
        }
    }

    /// The value of the key `key`, if present.
    pub fn get(&self, key: &str) -> (r: Option<&String>)
        ensures
            match pair_value(self@.key_values, key@) {
                Some(v) => r is Some && r->0@ == v,
                None => r is None,
            },
    {
        proof {
            lemma_first_key(self@.key_values, key@);
        }
        match smap_get_index_of(&self.key_values, key) {
            Some(i) => match smap_get_index(&self.key_values, i) {
                Some((_, v)) => Some(v),
                None => None,
            },
            None => None,
        }
    }

    fn get_str(&self, key: &str) -> (r: Option<&str>)
        ensures
            match pair_value(self@.key_values, key@) {
                Some(v) => r is Some && r->0@ == v,
                None => r is None,
            },
    {
        match self.get(key) {
            Some(v) => Some(v.as_str()),
            None => None,
        }
    }

    /// The classname of the entity.
    pub fn classname(&self) -> (r: Option<&str>)
        ensures
            match pair_value(self@.key_values, "classname"@) {
                Some(v) => r is Some && r->0@ == v,
                None => r is None,
            },
    {
        self.get_str("classname")
    }

    /// The targetname of the entity.
    pub fn targetname(&self) -> (r: Option<&str>)
        ensures
            match pair_value(self@.key_values, "targetname"@) {
                Some(v) => r is Some && r->0@ == v,
                None => r is None,
            },
    {
        self.get_str("targetname")
    }

    /// The model of the entity.
    pub fn model(&self) -> (r: Option<&str>)
        ensures
            match pair_value(self@.key_values, "model"@) {
                Some(v) => r is Some && r->0@ == v,
                None => r is None,
            },
    {
        self.get_str("model")
    }

    /// The ID of the entity: its `id` read as a `u64`, or 0.
    pub fn id(&self) -> (r: u64)
        ensures
            r == match pair_value(self@.key_values, "id"@) {
                Some(v) => match <u64 as FieldValue>::parse_spec(v) {
                    Some(x) => x,
                    None => 0,
                },
                None => 0,
            },
    {
        match self.get_str("id") {
            Some(v) => match <u64 as FieldValue>::parse_text(v) {
                Some(x) => x,
                None => 0,
            },
            None => 0,
        }
    }

    /// Adds an output connection; the delay is the text of a number of
    /// seconds.
    pub fn add_connection(
        &mut self,
        output: &str,
        target_entity: &str,
        input: &str,
        parms: &str,
        delay: &str,
        fire_limit: i32,
    )
        ensures
            ({
                let c = ConnView {
                    output: output@,
                    target: target_entity@,
                    input: input@,
                    params: parms@,
                    delay: delay@,
                    fire_limit,
                };
                final(self)@ == (EntityView {
                    connections: match old(self)@.connections {
                        Some(cs) => Some(cs.push(c)),
                        None => Some(seq![c]),
                    },
                    ..old(self)@
                })
            }),
    {
        let c = Connection {
            output: output.to_string(),
            target: target_entity.to_string(),
            input: input.to_string(),
            params: parms.to_string(),
            delay: delay.to_string(),
            fire_limit,
        };
        let ghost cv = c@;
        match &mut self.connections {
            Some(cs) => {
                let ghost c0 = cs@;
                cs.push(c);
                assert(conn_views(cs@) =~= conn_views(c0).push(cv));
            },
            None => {
                let mut v: Vec<Connection> = Vec::new();
                v.push(c);
                assert(conn_views(v@) =~= seq![cv]);
                self.connections = Some(v);
            },
        }
    }

    /// Removes all connections.
    pub fn clear_connections(&mut self)
        ensures
            final(self)@ == (EntityView { connections: None, ..old(self)@ }),
    {
        self.connections = None;
    }

    /// Whether a connection from `output` to `input` exists.
    pub fn has_connection(&self, output: &str, input: &str) -> (r: bool)
        ensures
            r == match self@.connections {
                Some(cs) => exists|i: int| #![trigger cs[i]] 0 <= i < cs.len() && cs[i].output == output@ && cs[i].input == input@,
                None => false,
            },
    {
        match &self.connections {
            Some(cs) => {
                let mut i: usize = 0;
                while i < cs.len()
                    invariant
                        i <= cs@.len(),
                        self@.connections == Some(conn_views(cs@)),
                        forall|j: int| 0 <= j < i ==> !(cs@[j].output@ == output@ && cs@[j].input@ == input@),
                    decreases cs.len() - i,
                {
                    if str_eq(cs[i].output.as_str(), output) && str_eq(cs[i].input.as_str(), input) {
                        assert(self@.connections == Some(conn_views(cs@)));
                        assert(conn_views(cs@)[i as int].output == output@ && conn_views(cs@)[i as int].input == input@);
                        proof {
                            let cv = conn_views(cs@);
                            assert(cv[i as int].output == output@ && cv[i as int].input == input@);
                            assert(exists|k: int| #![trigger cv[k]] 0 <= k < cv.len() && cv[k].output == output@ && cv[k].input == input@);
                            match self@.connections {
                                Some(c2) => {
                                    assert(c2 == cv);
                                },
                                None => {},
                            }
                        }
                        return true;
                    }
                    i = i + 1;
                }
                proof {
                    if exists|j: int| 0 <= j < cs@.len() && conn_views(cs@)[j].output == output@ && conn_views(cs@)[j].input == input@ {
                        let j = choose|j: int| 0 <= j < cs@.len() && conn_views(cs@)[j].output == output@ && conn_views(cs@)[j].input == input@;
                        assert(conn_views(cs@)[j] == cs@[j]@);
                    }
                }
                false
            },
            None => false,
        }
    }

    /// Reads an `entity` block.
    pub fn from_block(block: VmfBlock, ctx: &mut ParseCtx) -> (e: Self)
        ensures
            e@ == entity_of(block@),
            final(ctx)@ == entity_ctx(old(ctx)@, block@),
            final(ctx)@.path == old(ctx)@.path,
    {
        proof {
            reveal(entity_of);
        }
        let ghost c0 = ctx@;
        let ghost bv = block@;
        let VmfBlock { name: _, key_values, blocks } = block;
        let ghost v0 = blocks@;
        let ghost bt = blocks_tree(v0);
        let mut q = into_queue(blocks);
        let n = q.len();
        let mut editor = Editor::new();
        let mut connections: Option<Vec<Connection>> = None;
        let mut solids: Vec<Solid> = Vec::new();
        let mut unknown: Vec<VmfBlock> = Vec::new();
        let mut i: usize = 0;
        assert(bt.take(0) =~= Seq::<BlockTree>::empty());
        assert(blocks_tree(unknown@) =~= Seq::<BlockTree>::empty());
        assert(solids_view(solids@) =~= Seq::<SolidView>::empty());
        while i < n
            invariant
                i <= n,
                n == v0.len(),
                bt == blocks_tree(v0),
                q@ == v0.skip(i as int).reverse(),
                entity_blocks(bt.take(i as int)) == (EntityParts {
                    editor: editor@,
                    connections: match connections {
                        Some(cs) => Some(conn_views(cs@)),
                        None => None,
                    },
                    solids: solids_view(solids@),
                    unknown: blocks_tree(unknown@),
                }),
                ctx@ == entity_blocks_ctx(c0, bt.take(i as int)),
                ctx@.path == old(ctx)@.path,
            decreases n - i,
        {
            let b = next_block(&mut q, Ghost(v0), Ghost(i as int));
            assert(bt.take(i + 1).drop_last() =~= bt.take(i as int));
            entity_block_into(b, &mut editor, &mut connections, &mut solids, &mut unknown, ctx);
            i = i + 1;
        }
        assert(bt.take(n as int) =~= bt);
        let solids = if solids.len() > 0 {
            Some(solids)
        } else {
            None
        };
        Entity {
            key_values,
            connections,
            solids,
            editor,
            is_hidden: false,
            extra: Extras { key_values: smap_new(), blocks: unknown },
        }
    }
}

impl VmfSerializable for Entity {
    fn to_vmf_string(&self, indent_level: usize) -> (output: String)
        ensures
            output@ == entity_text(self@, indent_level as nat),
    {
        proof {
            reveal(entity_text);
        }
        let indent = tab_string(indent_level);
        let ind = indent.as_str();
        let mut output = String::new();
        write_head(&mut output, ind, "entity");
        assert(output@ =~= head_text(indent_level as nat, "entity"@));
        let mut deeper = indent.clone();
        crate::text::push_char(&mut deeper, '\t');
        assert(deeper@ =~= tabs(indent_level as nat) + seq!['\t']);
        write_pairs(&mut output, deeper.as_str(), &self.key_values);
        let ghost oc = output@;
        match &self.connections {
            Some(cs) => {
                let ghost ob = output@;
                write_head(&mut output, deeper.as_str(), "connections");
                let ghost o0 = output@;
                let ghost cv = conn_views(cs@);
                let mut i: usize = 0;
                assert(cv.take(0) =~= Seq::<ConnView>::empty());
                while i < cs.len()
                    invariant
                        i <= cs@.len(),
                        cv == conn_views(cs@),
                        output@ == o0 + conn_lines(deeper@, cv.take(i as int)),
                    decreases cs.len() - i,
                {
                    assert(cv.take(i + 1).drop_last() =~= cv.take(i as int));
                    let v = cs[i].to_value_string();
                    write_pair(&mut output, deeper.as_str(), cs[i].output.as_str(), v.as_str());
                    i = i + 1;
                }
                assert(cv.take(cs@.len() as int) =~= cv);
                write_tail(&mut output, deeper.as_str());
                assert(output@ =~= ob + (head_lines(deeper@, "connections"@) + conn_lines(deeper@, cv) + tail_line(
                    deeper@,
                )));
            },
            None => {
                assert(output@ =~= output@ + Seq::<char>::empty());
            },
        }
        assert(output@ == oc + match self@.connections {
            Some(cs) => head_lines(deeper@, "connections"@) + conn_lines(deeper@, cs) + tail_line(deeper@),
            None => Seq::empty(),
        });
        let inner = next_indent(indent_level);
        let ghost os = output@;
        match &self.solids {
            Some(ss) => {
                let ghost o1 = output@;
                let ghost sv = solids_view(ss@);
                let mut j: usize = 0;
                assert(sv.take(0) =~= Seq::<SolidView>::empty());
                while j < ss.len()
                    invariant
                        j <= ss@.len(),
                        sv == solids_view(ss@),
                        output@ == o1 + solids_text(sv.take(j as int), inner as nat),
                    decreases ss.len() - j,
                {
                    assert(sv.take(j + 1).drop_last() =~= sv.take(j as int));
                    let t = ss[j].to_vmf_string(inner);
                    output.append(t.as_str());
                    j = j + 1;
                }
                assert(sv.take(ss@.len() as int) =~= sv);
            },
            None => {
                assert(output@ =~= output@ + Seq::<char>::empty());
            },
        }
        assert(output@ == os + match self@.solids {
            Some(ss) => solids_text(ss, inner as nat),
            None => Seq::empty(),
        });
        let e = self.editor.to_vmf_string(inner);
        output.append(e.as_str());
        self.extra.write_blocks(&mut output, inner);
        write_tail(&mut output, ind);
        output
    }
}

/// Whether an entity has the pair `key` = `value`, keys compared exactly.
pub open spec fn has_pair(e: EntityView, key: Seq<char>, value: Seq<char>) -> bool {
    pair_value(e.key_values, key) == Some(value)
}

/// The entities of `es` that have the pair `key` = `value`, in order.
pub open spec fn with_pair(es: Seq<Entity>, key: Seq<char>, value: Seq<char>) -> Seq<Entity>
    decreases es.len(),
{
    if es.len() == 0 {
        Seq::empty()
    } else {
        with_pair(es.drop_last(), key, value) + if has_pair(es.last()@, key, value) {
            seq![es.last()]
        } else {
            Seq::empty()
        }
    }
}

/// The entities of `es` that do not have the pair `key` = `value`, in order.
pub open spec fn without_pair(es: Seq<Entity>, key: Seq<char>, value: Seq<char>) -> Seq<Entity>
    decreases es.len(),
{
    if es.len() == 0 {
        Seq::empty()
    } else {
        without_pair(es.drop_last(), key, value) + if has_pair(es.last()@, key, value) {
            Seq::empty()
        } else {
            seq![es.last()]
        }
    }
}

/// The index of the first entity of `es` with the pair `key` = `value`, or -1.
pub open spec fn first_with_pair(es: Seq<Entity>, key: Seq<char>, value: Seq<char>) -> int
    decreases es.len(),
{
    if es.len() == 0 {
        -1
    } else {
        let r = first_with_pair(es.drop_last(), key, value);
        if r >= 0 {
            r
        } else if has_pair(es.last()@, key, value) {
            es.len() - 1
        } else {
            -1
        }
    }
}

/// The entities a list of references points to.
pub open spec fn derefs(v: Seq<&Entity>) -> Seq<Entity> {
    v.map_values(|e: &Entity| *e)
}

/// A list of entities.
#[derive(Debug, PartialEq)]
pub struct Entities(pub Vec<Entity>);

impl Entity {
    /// Whether the entity has the pair `key` = `value`.
    fn has_pair(&self, key: &str, value: &str) -> (r: bool)
        ensures
            r == has_pair(self@, key@, value@),
    {
        match self.get(key) {
            Some(v) => str_eq(v.as_str(), value),
            None => false,
        }
    }
}

impl Entities {
    /// The entities that have the pair `key` = `value`, in order.
    pub fn find_by_keyvalue(&self, key: &str, value: &str) -> (r: Vec<&Entity>)
        ensures
            derefs(r@) == with_pair(self.0@, key@, value@),
    {
        let ghost es = self.0@;
        let mut r: Vec<&Entity> = Vec::new();
        let mut i: usize = 0;
        assert(es.take(0) =~= Seq::<Entity>::empty());
        assert(derefs(r@) =~= Seq::<Entity>::empty());
        while i < self.0.len()
            invariant
                i <= es.len(),
                es == self.0@,
                derefs(r@) == with_pair(es.take(i as int), key@, value@),
            decreases self.0.len() - i,
        {
            assert(es.take(i + 1).drop_last() =~= es.take(i as int));
            let ghost r0 = r@;
            if self.0[i].has_pair(key, value) {
                r.push(&self.0[i]);
                assert(derefs(r@) =~= derefs(r0).push(es[i as int]));
            } else {
                assert(with_pair(es.take(i + 1), key@, value@) =~= with_pair(es.take(i as int), key@, value@));
            }
            i = i + 1;
        }
        assert(es.take(es.len() as int) =~= es);
        r
    }

    /// The entities of the given classname, in order.
    pub fn find_by_classname(&self, classname: &str) -> (r: Vec<&Entity>)
        ensures
            derefs(r@) == with_pair(self.0@, "classname"@, classname@),
    {
        self.find_by_keyvalue("classname", classname)
    }

    /// The entities of the given name (`targetname`), in order.
    pub fn find_by_name(&self, name: &str) -> (r: Vec<&Entity>)
        ensures
            derefs(r@) == with_pair(self.0@, "targetname"@, name@),
    {
        self.find_by_keyvalue("targetname", name)
    }

    /// The entities of the given model, in order.
    pub fn find_by_model(&self, model: &str) -> (r: Vec<&Entity>)
        ensures
            derefs(r@) == with_pair(self.0@, "model"@, model@),
    {
        self.find_by_keyvalue("model", model)
    }

    /// Removes and returns the first entity whose `id` is `entity_id`, or
    /// gives `None` and changes nothing.
    pub fn remove_entity(&mut self, entity_id: i32) -> (r: Option<Entity>)
        ensures
            first_with_pair(old(self).0@, "id"@, dec_int(entity_id as int)) >= 0 ==> r == Some(
                old(self).0@[first_with_pair(old(self).0@, "id"@, dec_int(entity_id as int))],
            ) && final(self).0@ == old(self).0@.remove(first_with_pair(old(self).0@, "id"@, dec_int(entity_id as int))),
            first_with_pair(old(self).0@, "id"@, dec_int(entity_id as int)) < 0 ==> r is None && final(self).0@
                == old(self).0@,
    {
        let id_text = i64_to_string(entity_id as i64);
        let ghost es = self.0@;
        let ghost t = dec_int(entity_id as int);
        let mut i: usize = 0;
        while i < self.0.len()
            invariant
                i <= es.len(),
                es == self.0@,
                es == old(self).0@,
                t == dec_int(entity_id as int),
                id_text@ == t,
                first_with_pair(es.take(i as int), "id"@, t) == -1,
            decreases self.0.len() - i,
        {
            assert(es.take(i + 1).drop_last() =~= es.take(i as int));
            if self.0[i].has_pair("id", id_text.as_str()) {
                proof {
                    lemma_first_with_pair_prefix(es, i as int + 1, "id"@, t);
                }
                let e = self.0.remove(i);
                return Some(e);
            }
            i = i + 1;
        }
        assert(es.take(es.len() as int) =~= es);
        None
    }

    /// Removes every entity that has the pair `key` = `value`, keeping the
    /// order of the others.
    pub fn remove_by_keyvalue(&mut self, key: &str, value: &str)
        ensures
            final(self).0@ == without_pair(old(self).0@, key@, value@),
    {
        let ghost es = self.0@;
        let mut back: Vec<Entity> = Vec::new();
        while self.0.len() > 0
            invariant
                back@.len() + self.0@.len() == es.len(),
                self.0@ == es.take(self.0@.len() as int),
                forall|j: int| 0 <= j < back@.len() ==> #[trigger] back@[j] == es[es.len() - 1 - j],
            decreases self.0.len(),
        {
            let e = self.0.pop().unwrap();
            back.push(e);
        }
        let mut kept: Vec<Entity> = Vec::new();
        let n = back.len();
        let mut i: usize = 0;
        assert(es.take(0) =~= Seq::<Entity>::empty());
        while i < n
            invariant
                n == es.len(),
                i <= n,
                back@.len() == n - i,
                forall|j: int| 0 <= j < back@.len() ==> #[trigger] back@[j] == es[es.len() - 1 - j],
                kept@ == without_pair(es.take(i as int), key@, value@),
            decreases n - i,
        {
            let e = back.pop().unwrap();
            assert(e == es[i as int]);
            assert(es.take(i + 1).drop_last() =~= es.take(i as int));
            if !e.has_pair(key, value) {
                kept.push(e);
            } else {
                assert(without_pair(es.take(i + 1), key@, value@) =~= without_pair(es.take(i as int), key@, value@));
            }
            i = i + 1;
        }
        assert(es.take(n as int) =~= es);
        self.0 = kept;
    }
}

proof fn lemma_first_with_pair_prefix(es: Seq<Entity>, n: int, key: Seq<char>, value: Seq<char>)
    requires
        0 < n <= es.len(),
        first_with_pair(es.take(n - 1), key, value) == -1,
        has_pair(es[n - 1]@, key, value),
    ensures
        first_with_pair(es, key, value) == n - 1,
    decreases es.len(),
{
    assert(es.take(n).drop_last() =~= es.take(n - 1));
    if n < es.len() {
        assert(es.drop_last().take(n) =~= es.take(n));
        assert(es.drop_last().take(n - 1) =~= es.take(n - 1));
        lemma_first_with_pair_prefix(es.drop_last(), n, key, value);
    } else {
        assert(es.take(n) =~= es);
    }
}

/// What `set` writes, `get` reads back: after putting the pair `k` = `v`
/// into an entity's pairs, the value under `k` is `v`.
pub proof fn lemma_get_after_set(kvs: Pairs, k: Seq<char>, v: Seq<char>)
    ensures
        pair_value(put(kvs, k, v), k) == Some(v),
{
    lemma_first_key(kvs, k);
    let i = first_key(kvs, k);
    let m = put(kvs, k, v);
    lemma_first_key(m, k);
    let j = first_key(m, k);
    if i >= 0 {
        assert(m[i].0 == k);
        if j < i {
            assert(m[j] == kvs[j]);
        }
    } else {
        assert(m[kvs.len() as int].0 == k);
        if 0 <= j < kvs.len() {
            assert(m[j] == kvs[j]);
        }
    }
}

/// Setting a pair leaves the values under the other keys as they were.
pub proof fn lemma_set_keeps_other_keys(kvs: Pairs, k: Seq<char>, v: Seq<char>, other: Seq<char>)
    requires
        other != k,
    ensures
        pair_value(put(kvs, k, v), other) == pair_value(kvs, other),
{
    lemma_first_key(kvs, k);
    lemma_first_key(kvs, other);
    let m = put(kvs, k, v);
    lemma_first_key(m, other);
    let a = first_key(kvs, other);
    let b = first_key(m, other);
    if a >= 0 {
        assert(m[a].0 == other);
        if b < a && b >= 0 {
            assert(m[b].0 == kvs[b].0 || b == first_key(kvs, k));
        }
    } else if b >= 0 {
        if b < kvs.len() {
            assert(m[b].0 == kvs[b].0 || b == first_key(kvs, k));
        }
    }
}

} // verus!
