//! Visgroups: the tree of named groups that editor objects are put in.

use vstd::prelude::*;
use crate::kv::ser::tabs;
use crate::ordmap::str_entries;
use crate::text::{dec_int, eq_ignore_ascii_case, i64_to_string, str_eq};
use crate::vmf::block::{BlockTree, Extras, VmfBlock, blocks_text, blocks_tree, lemma_blocks_tree, pairs_text,
    tab_string, next_indent, next_level};
use crate::vmf::common::{VmfSerializable, extras_view, white};
use crate::vmf::parse_ctx::{CtxView, ParseCtx, indexed_segment, warned};
use crate::vmf::typed::{head_lines, head_text, into_queue, named, next_block, pair_line, tail_line, tail_text,
    write_head, write_pair, write_tail};
use crate::vmf::utils::{Pairs, parse_or, take_parse, take_str, taken, at_path, entered, parse_or_ctx, str_ctx,
    unexpected_msg};
use crate::vmf::world::text_or;

verus! {

broadcast use {lemma_blocks_tree, crate::vmf::utils::group_ctx_paths};

/// Represents a visgroup.
#[derive(Debug, PartialEq)]
pub struct VisGroup {
    /// The name of the visgroup.
    pub name: String,
    /// The ID of the visgroup.
    pub id: i32,
    /// The color of the visgroup in the editor.
    pub color: String,
    /// The child visgroups, if any.
    pub children: Option<Vec<VisGroup>>,
    /// Keys and blocks this struct does not model.
    pub extra: Extras,
}

/// The content of a [`VisGroup`].
pub struct VisGroupView {
    pub name: Seq<char>,
    pub id: i32,
    pub color: Seq<char>,
    pub children: Option<Seq<VisGroupView>>,
    pub extra: (Pairs, Seq<BlockTree>),
}

pub open spec fn vg_view(g: VisGroup) -> VisGroupView
    decreases g, 0nat,
{
    VisGroupView {
        name: g.name@,
        id: g.id,
        color: g.color@,
        children: match g.children {
            Some(c) => Some(vgs_view(c@)),
            None => None,
        },
        extra: extras_view(g.extra),
    }
}

pub open spec fn vgs_view(gs: Seq<VisGroup>) -> Seq<VisGroupView>
    decreases gs, 1nat,
{
    if gs.len() == 0 {
        Seq::empty()
    } else {
        vgs_view(gs.drop_last()).push(vg_view(gs.last()))
    }
}

pub broadcast proof fn lemma_vgs_view(gs: Seq<VisGroup>)
    ensures
        (#[trigger] vgs_view(gs)).len() == gs.len(),
        forall|i: int| 0 <= i < gs.len() ==> vgs_view(gs)[i] == vg_view(gs[i]),
    decreases gs.len(),
{
    if gs.len() > 0 {
        lemma_vgs_view(gs.drop_last());
        assert forall|i: int| 0 <= i < gs.len() - 1 implies vgs_view(gs)[i] == vg_view(gs[i]) by {
            assert(gs.drop_last()[i] == gs[i]);
        }
    }
}

impl View for VisGroup {
    type V = VisGroupView;

    open spec fn view(&self) -> VisGroupView {
        vg_view(*self)
    }
}

/// The visgroup read from a `visgroup` block: its child visgroups, then
/// its name, ID (0 where missing or unreadable) and color.
pub open spec fn visgroup_of(b: BlockTree) -> VisGroupView
    decreases b, 0nat,
{
    let (kids, unknown) = vg_blocks(b.blocks);
    let (name, k1) = taken(b.kvs, "name"@);
    let (id, k2) = taken(k1, "visgroupid"@);
    let (color, k3) = taken(k2, "color"@);
    VisGroupView {
        name: text_or(name, Seq::empty()),
        id: parse_or(id, 0i32),
        color: text_or(color, white()),
        children: if kids.len() > 0 {
            Some(kids)
        } else {
            None
        },
        extra: (k3, unknown),
    }
}

/// The visgroups and the other blocks among `bs`.
pub open spec fn vg_blocks(bs: Seq<BlockTree>) -> (Seq<VisGroupView>, Seq<BlockTree>)
    decreases bs, 1nat,
{
    if bs.len() == 0 {
        (Seq::empty(), Seq::empty())
    } else {
        let (k, u) = vg_blocks(bs.drop_last());
        if named(bs.last(), "visgroup"@) {
            (k.push(visgroup_of(bs.last())), u)
        } else {
            (k, u.push(bs.last()))
        }
    }
}

/// The context after reading a `visgroup` block: the warnings of its
/// blocks, then those about its name, ID and color.
pub open spec fn visgroup_ctx(c: CtxView, b: BlockTree) -> CtxView
    decreases b, 0nat,
{
    let c0 = vg_blocks_ctx(c, b.blocks);
    let (name, k1) = taken(b.kvs, "name"@);
    let (id, k2) = taken(k1, "visgroupid"@);
    let (color, _) = taken(k2, "color"@);
    str_ctx(parse_or_ctx(str_ctx(c0, "name"@, name, ""@), "visgroupid"@, id, 0i32), "color"@, color, "255 255 255"@)
}

/// The context after reading the blocks of a visgroup or of the
/// `visgroups` block: the `n`-th block, a visgroup, is read within
/// `visgroup[<n>]`; other blocks are warned of.
pub open spec fn vg_blocks_ctx(c: CtxView, bs: Seq<BlockTree>) -> CtxView
    decreases bs, 1nat,
{
    if bs.len() == 0 {
        c
    } else {
        let c1 = vg_blocks_ctx(c, bs.drop_last());
        if named(bs.last(), "visgroup"@) {
            at_path(visgroup_ctx(entered(c1, indexed_segment("visgroup"@, (bs.len() - 1) as nat)), bs.last()), c1.path)
        } else {
            warned(c1, unexpected_msg(bs.last().name))
        }
    }
}

/// The context after reading the `visgroups` block: the warnings of its
/// blocks, within `visgroups`.
pub open spec fn visgroups_ctx(c: CtxView, b: BlockTree) -> CtxView {
    at_path(vg_blocks_ctx(entered(c, "visgroups"@), b.blocks), c.path)
}

/// The text of a visgroup at `level`: it is written one tab deeper than
/// the level, its children at the next level.
pub open spec fn visgroup_text(g: VisGroupView, level: nat) -> Seq<char>
    decreases g, 0nat,
{
    let ind = tabs(level) + seq!['\t'];
    let l2 = next_level(next_level(level));
    visgroup_head(level) + pair_line(ind, "name"@, g.name)
        + pair_line(ind, "visgroupid"@, dec_int(g.id as int)) + pair_line(ind, "color"@, g.color) + pairs_text(
        tabs(l2),
        g.extra.0,
    ) + match g.children {
        Some(c) => visgroups_text(c, next_level(level)),
        None => Seq::empty(),
    } + blocks_text(g.extra.1, l2) + tail_line(ind)
}

/// The lines that open a visgroup at `level`.
pub open spec fn visgroup_head(level: nat) -> Seq<char> {
    tabs(level) + seq!['\t'] + "visgroup"@ + seq!['\n'] + seq!['\t'] + tabs(level) + seq!['{', '\n']
}

/// The texts of visgroups, all at `level`.
pub open spec fn visgroups_text(gs: Seq<VisGroupView>, level: nat) -> Seq<char>
    decreases gs, 1nat,
{
    if gs.len() == 0 {
        Seq::empty()
    } else {
        visgroups_text(gs.drop_last(), level) + visgroup_text(gs.last(), level)
    }
}

impl VisGroup {
    /// Reads a `visgroup` block and its child visgroups.
    #[verifier::loop_isolation(false)]
    pub fn from_block(block: VmfBlock, ctx: &mut ParseCtx) -> (g: Self)
        ensures
            g@ == visgroup_of(block@),
            final(ctx)@ == visgroup_ctx(old(ctx)@, block@),
            final(ctx)@.path == old(ctx)@.path,
        decreases block,
    {
        let ghost c0 = ctx@;
        let ghost bg = block;
        let ghost bv = block@;
        let VmfBlock { name: _, key_values, blocks } = block;
        let ghost v0 = blocks@;
        let ghost bt = blocks_tree(v0);
        proof {
            assert(decreases_to!(bg => bg.blocks));
            assert(decreases_to!(bg.blocks => bg.blocks@));
        }
        let mut q = into_queue(blocks);
        let n = q.len();
        let mut kids: Vec<VisGroup> = Vec::new();
        let mut unknown: Vec<VmfBlock> = Vec::new();
        let mut i: usize = 0;
        assert(bt.take(0) =~= Seq::<BlockTree>::empty());
        assert(blocks_tree(unknown@) =~= Seq::<BlockTree>::empty());
        assert(vgs_view(kids@) =~= Seq::<VisGroupView>::empty());
        let ghost p = ctx@.path;
        while i < n
            invariant
                i <= n,
                n == v0.len(),
                bt == blocks_tree(v0),
                bt == bv.blocks,
                v0 == bg.blocks@,
                q@ == v0.skip(i as int).reverse(),
                vg_blocks(bt.take(i as int)) == (vgs_view(kids@), blocks_tree(unknown@)),
                ctx@ == vg_blocks_ctx(c0, bt.take(i as int)),
                ctx@.path == p,
            decreases n - i,
        {
            let b = next_block(&mut q, Ghost(v0), Ghost(i as int));
            assert(bt.take(i + 1).drop_last() =~= bt.take(i as int));
            if eq_ignore_ascii_case(b.name.as_str(), "visgroup") {
                proof {
                    assert(decreases_to!(bg.blocks@ => bg.blocks@[i as int]));
                }
                ctx.enter_indexed("visgroup", i);
                let g = VisGroup::from_block(b, ctx);
                ctx.leave();
                assert(ctx@.path =~= p);
                let ghost k0 = kids@;
                kids.push(g);
                assert(kids@.drop_last() =~= k0);
            } else {
                let mut m = String::new();
                m.append("unexpected block '");
                m.append(b.name.as_str());
                m.append("', kept as-is");
                assert(m@ =~= unexpected_msg(b@.name));
                ctx.warn(m.as_str());
                let ghost u0 = unknown@;
                unknown.push(b);
                assert(unknown@.drop_last() =~= u0);
            }
            i = i + 1;
        }
        assert(bt.take(n as int) =~= bt);
        let mut kv = key_values;
        let name = take_str(&mut kv, "name", "", ctx);
        let id = take_parse::<i32>(&mut kv, "visgroupid", 0, ctx);
        let color = take_str(&mut kv, "color", "255 255 255", ctx);
        proof {
            reveal_strlit("");
            assert(""@ =~= Seq::<char>::empty());
        }
        let children = if kids.len() > 0 {
            Some(kids)
        } else {
            None
        };
        VisGroup { name, id, color, children, extra: Extras { key_values: kv, blocks: unknown } }
    }
}

impl VmfSerializable for VisGroup {
    #[verifier::loop_isolation(false)]
    fn to_vmf_string(&self, indent_level: usize) -> (output: String)
        ensures
            output@ == visgroup_text(self@, indent_level as nat),
        decreases self,
    {
        let indent = tab_string(indent_level);
        let mut ind = indent.clone();
        crate::text::push_char(&mut ind, '\t');
        assert(ind@ =~= tabs(indent_level as nat) + seq!['\t']);
        let mut output = String::new();
        output.append(ind.as_str());
        output.append("visgroup");
        crate::text::push_char(&mut output, '\n');
        crate::text::push_char(&mut output, '\t');
        output.append(indent.as_str());
        crate::text::push_char(&mut output, '{');
        crate::text::push_char(&mut output, '\n');
        assert(output@ =~= visgroup_head(indent_level as nat));
        write_pair(&mut output, ind.as_str(), "name", self.name.as_str());
        let t = i64_to_string(self.id as i64);
        write_pair(&mut output, ind.as_str(), "visgroupid", t.as_str());
        write_pair(&mut output, ind.as_str(), "color", self.color.as_str());
        let l1 = next_indent(indent_level);
        let l2 = next_indent(l1);
        self.extra.write_key_values(&mut output, l2);
        let ghost ob = output@;
        match &self.children {
            Some(c) => {
                let ghost cv = vgs_view(c@);
                proof {
                    lemma_vgs_view(c@);
                }
                let mut i: usize = 0;
                assert(cv.take(0) =~= Seq::<VisGroupView>::empty());
                while i < c.len()
                    invariant
                        i <= c@.len(),
                        cv == vgs_view(c@),
                        output@ == ob + visgroups_text(cv.take(i as int), l1 as nat),
                    decreases c.len() - i,
                {
                    proof {
                        lemma_vgs_view(c@);
                        assert(decreases_to!(*self => self.children));
                        assert(decreases_to!(self.children => *c));
                        assert(decreases_to!(*c => c@));
                        assert(decreases_to!(c@ => c@[i as int]));
                    }
                    assert(cv.take(i + 1).drop_last() =~= cv.take(i as int));
                    let t = c[i].to_vmf_string(l1);
                    output.append(t.as_str());
                    i = i + 1;
                }
                assert(cv.take(c@.len() as int) =~= cv);
            },
            None => {
                assert(output@ =~= ob + Seq::<char>::empty());
            },
        }
        assert(output@ == ob + match self@.children {
            Some(c) => visgroups_text(c, l1 as nat),
            None => Seq::<char>::empty(),
        });
        self.extra.write_blocks(&mut output, l2);
        write_tail(&mut output, ind.as_str());
        output
    }
}

/// The content of [`VisGroups`].
pub struct VisGroupsView {
    pub groups: Seq<VisGroupView>,
    pub extra: (Pairs, Seq<BlockTree>),
}

/// The collection of visgroups of a map file.
#[derive(Debug, PartialEq)]
pub struct VisGroups {
    /// The top-level visgroups.
    pub groups: Vec<VisGroup>,
    /// Keys and blocks this struct does not model.
    pub extra: Extras,
}

impl View for VisGroups {
    type V = VisGroupsView;

    open spec fn view(&self) -> VisGroupsView {
        VisGroupsView { groups: vgs_view(self.groups@), extra: extras_view(self.extra) }
    }
}

/// The visgroups read from the `visgroups` block.
pub open spec fn visgroups_of(b: BlockTree) -> VisGroupsView {
    let (gs, unknown) = vg_blocks(b.blocks);
    VisGroupsView { groups: gs, extra: (b.kvs, unknown) }
}

/// The text of the visgroups block at `level`.
pub open spec fn visgroups_block_text(v: VisGroupsView, level: nat) -> Seq<char> {
    head_text(level, "visgroups"@) + pairs_text(tabs(next_level(level)), v.extra.0) + visgroups_text(v.groups, level)
        + blocks_text(v.extra.1, next_level(level)) + tail_text(level)
}

/// The first visgroup, in depth-first order, with the given ID.
pub open spec fn find_id(gs: Seq<VisGroupView>, id: i32) -> Option<VisGroupView>
    decreases gs,
{
    if gs.len() == 0 {
        None
    } else {
        let g = gs[0];
        if g.id == id {
            Some(g)
        } else {
            let inner = match g.children {
                Some(c) => find_id(c, id),
                None => None,
            };
            if inner is Some {
                inner
            } else {
                find_id(gs.drop_first(), id)
            }
        }
    }
}

/// The first visgroup, in depth-first order, with the given name.
pub open spec fn find_name(gs: Seq<VisGroupView>, name: Seq<char>) -> Option<VisGroupView>
    decreases gs,
{
    if gs.len() == 0 {
        None
    } else {
        let g = gs[0];
        if g.name == name {
            Some(g)
        } else {
            let inner = match g.children {
                Some(c) => find_name(c, name),
                None => None,
            };
            if inner is Some {
                inner
            } else {
                find_name(gs.drop_first(), name)
            }
        }
    }
}

/// A visgroup followed by all its descendants, in depth-first order.
pub open spec fn group_tree(g: VisGroupView) -> Seq<VisGroupView>
    decreases g, 0nat,
{
    seq![g] + match g.children {
        Some(c) => all_groups(c),
        None => Seq::empty(),
    }
}

/// Visgroups and all their descendants, in depth-first order.
pub open spec fn all_groups(gs: Seq<VisGroupView>) -> Seq<VisGroupView>
    decreases gs, 1nat,
{
    if gs.len() == 0 {
        Seq::empty()
    } else {
        group_tree(gs[0]) + all_groups(gs.drop_first())
    }
}

/// Finding a visgroup by name searches every depth: there is a result
/// exactly when some visgroup or descendant bears the name, and the result
/// is the first such one in depth-first order.
pub proof fn lemma_find_name_any_depth(gs: Seq<VisGroupView>, n: Seq<char>)
    ensures
        (exists|i: int| 0 <= i < all_groups(gs).len() && (#[trigger] all_groups(gs)[i]).name == n) <==> find_name(
            gs,
            n,
        ) is Some,
        find_name(gs, n) matches Some(g) ==> g.name == n && exists|i: int|
            0 <= i < all_groups(gs).len() && all_groups(gs)[i] == g && forall|j: int|
                0 <= j < i ==> (#[trigger] all_groups(gs)[j]).name != n,
    decreases gs,
{
    if gs.len() > 0 {
        let g = gs[0];
        let rest = gs.drop_first();
        let kids = match g.children {
            Some(c) => all_groups(c),
            None => Seq::<VisGroupView>::empty(),
        };
        let t = group_tree(g);
        let a = all_groups(gs);
        assert(a == t + all_groups(rest));
        assert(t == seq![g] + kids);
        assert(a[0] == g);
        if g.name == n {
            assert(a[0].name == n);
        } else {
            match g.children {
                Some(c) => {
                    lemma_find_name_any_depth(c, n);
                },
                None => {},
            }
            let inner = match g.children {
                Some(c) => find_name(c, n),
                None => None,
            };
            if inner is Some {
                let c = g.children->0;
                let f = inner->0;
                let i = choose|i: int| 0 <= i < all_groups(c).len() && all_groups(c)[i] == f && forall|j: int|
                    0 <= j < i ==> (#[trigger] all_groups(c)[j]).name != n;
                assert(a[i + 1] == f);
                assert forall|j: int| 0 <= j < i + 1 implies (#[trigger] a[j]).name != n by {
                    if j > 0 {
                        assert(a[j] == all_groups(c)[j - 1]);
                    }
                }
                assert(a[i + 1].name == n);
            } else {
                lemma_find_name_any_depth(rest, n);
                assert forall|j: int| 0 <= j < t.len() implies (#[trigger] a[j]).name != n by {
                    assert(a[j] == t[j]);
                    if j > 0 {
                        assert(t[j] == kids[j - 1]);
                        match g.children {
                            Some(c) => {
                                assert(kids[j - 1] == all_groups(c)[j - 1]);
                            },
                            None => {},
                        }
                    }
                }
                let r = all_groups(rest);
                if exists|i: int| 0 <= i < a.len() && (#[trigger] a[i]).name == n {
                    let i = choose|i: int| 0 <= i < a.len() && (#[trigger] a[i]).name == n;
                    assert(i >= t.len());
                    assert(r[i - t.len()] == a[i]);
                }
                if exists|i: int| 0 <= i < r.len() && (#[trigger] r[i]).name == n {
                    let i = choose|i: int| 0 <= i < r.len() && (#[trigger] r[i]).name == n;
                    assert(a[i + t.len()] == r[i]);
                }
                match find_name(rest, n) {
                    Some(f) => {
                        let i = choose|i: int| 0 <= i < r.len() && r[i] == f && forall|j: int|
                            0 <= j < i ==> (#[trigger] r[j]).name != n;
                        assert(a[i + t.len()] == f);
                        assert forall|j: int| 0 <= j < i + t.len() implies (#[trigger] a[j]).name != n by {
                            if j >= t.len() {
                                assert(a[j] == r[j - t.len()]);
                            }
                        }
                    },
                    None => {},
                }
            }
        }
    }
}

/// Finding a visgroup by ID searches every depth: there is a result
/// exactly when some visgroup or descendant has the ID, and the result is
/// the first such one in depth-first order.
pub proof fn lemma_find_id_any_depth(gs: Seq<VisGroupView>, n: i32)
    ensures
        (exists|i: int| 0 <= i < all_groups(gs).len() && (#[trigger] all_groups(gs)[i]).id == n) <==> find_id(
            gs,
            n,
        ) is Some,
        find_id(gs, n) matches Some(g) ==> g.id == n && exists|i: int|
            0 <= i < all_groups(gs).len() && all_groups(gs)[i] == g && forall|j: int|
                0 <= j < i ==> (#[trigger] all_groups(gs)[j]).id != n,
    decreases gs,
{
    if gs.len() > 0 {
        let g = gs[0];
        let rest = gs.drop_first();
        let kids = match g.children {
            Some(c) => all_groups(c),
            None => Seq::<VisGroupView>::empty(),
        };
        let t = group_tree(g);
        let a = all_groups(gs);
        assert(a == t + all_groups(rest));
        assert(t == seq![g] + kids);
        assert(a[0] == g);
        if g.id == n {
            assert(a[0].id == n);
        } else {
            match g.children {
                Some(c) => {
                    lemma_find_id_any_depth(c, n);
                },
                None => {},
            }
            let inner = match g.children {
                Some(c) => find_id(c, n),
                None => None,
            };
            if inner is Some {
                let c = g.children->0;
                let f = inner->0;
                let i = choose|i: int| 0 <= i < all_groups(c).len() && all_groups(c)[i] == f && forall|j: int|
                    0 <= j < i ==> (#[trigger] all_groups(c)[j]).id != n;
                assert(a[i + 1] == f);
                assert forall|j: int| 0 <= j < i + 1 implies (#[trigger] a[j]).id != n by {
                    if j > 0 {
                        assert(a[j] == all_groups(c)[j - 1]);
                    }
                }
                assert(a[i + 1].id == n);
            } else {
                lemma_find_id_any_depth(rest, n);
                assert forall|j: int| 0 <= j < t.len() implies (#[trigger] a[j]).id != n by {
                    assert(a[j] == t[j]);
                    if j > 0 {
                        assert(t[j] == kids[j - 1]);
                        match g.children {
                            Some(c) => {
                                assert(kids[j - 1] == all_groups(c)[j - 1]);
                            },
                            None => {},
                        }
                    }
                }
                let r = all_groups(rest);
                if exists|i: int| 0 <= i < a.len() && (#[trigger] a[i]).id == n {
                    let i = choose|i: int| 0 <= i < a.len() && (#[trigger] a[i]).id == n;
                    assert(i >= t.len());
                    assert(r[i - t.len()] == a[i]);
                }
                if exists|i: int| 0 <= i < r.len() && (#[trigger] r[i]).id == n {
                    let i = choose|i: int| 0 <= i < r.len() && (#[trigger] r[i]).id == n;
                    assert(a[i + t.len()] == r[i]);
                }
                match find_id(rest, n) {
                    Some(f) => {
                        let i = choose|i: int| 0 <= i < r.len() && r[i] == f && forall|j: int|
                            0 <= j < i ==> (#[trigger] r[j]).id != n;
                        assert(a[i + t.len()] == f);
                        assert forall|j: int| 0 <= j < i + t.len() implies (#[trigger] a[j]).id != n by {
                            if j >= t.len() {
                                assert(a[j] == r[j - t.len()]);
                            }
                        }
                    },
                    None => {},
                }
            }
        }
    }
}

/// The highest ID among the visgroups and their descendants, and 0.
pub open spec fn highest(gs: Seq<VisGroupView>) -> int
    decreases gs,
{
    if gs.len() == 0 {
        0
    } else {
        let g = gs.last();
        let kids = match g.children {
            Some(c) => highest(c),
            None => 0,
        };
        let a = highest(gs.drop_last());
        let b = if a >= g.id { a } else { g.id as int };
        if b >= kids {
            b
        } else {
            kids
        }
    }
}

/// `acc` with `id` added at the end, unless it is there already.
pub open spec fn with_id(acc: Seq<i32>, id: i32) -> Seq<i32> {
    if acc.contains(id) {
        acc
    } else {
        acc.push(id)
    }
}

/// The IDs that collecting `g` into `acc` gives: its ID, then those of its
/// descendants in depth-first order, each added unless already there.
pub open spec fn collected(g: VisGroupView, acc: Seq<i32>) -> Seq<i32>
    decreases g, 0nat,
{
    match g.children {
        Some(c) => collected_all(c, with_id(acc, g.id)),
        None => with_id(acc, g.id),
    }
}

pub open spec fn collected_all(gs: Seq<VisGroupView>, acc: Seq<i32>) -> Seq<i32>
    decreases gs, 1nat,
{
    if gs.len() == 0 {
        acc
    } else {
        collected(gs.last(), collected_all(gs.drop_last(), acc))
    }
}

/// The IDs of a visgroup and all its descendants.
pub open spec fn tree_ids(g: VisGroupView) -> Set<i32>
    decreases g, 0nat,
{
    set![g.id] + match g.children {
        Some(c) => trees_ids(c),
        None => Set::empty(),
    }
}

/// The IDs of visgroups and all their descendants.
pub open spec fn trees_ids(gs: Seq<VisGroupView>) -> Set<i32>
    decreases gs, 1nat,
{
    if gs.len() == 0 {
        Set::empty()
    } else {
        trees_ids(gs.drop_last()) + tree_ids(gs.last())
    }
}

proof fn lemma_with_id_set(acc: Seq<i32>, id: i32)
    ensures
        with_id(acc, id).to_set() == acc.to_set().insert(id),
{
    if acc.contains(id) {
        assert(acc.to_set().insert(id) =~= acc.to_set());
    } else {
        assert(acc.push(id).to_set() =~= acc.to_set().insert(id)) by {
            assert forall|x: i32| acc.push(id).to_set().contains(x) == acc.to_set().insert(id).contains(x) by {
                if acc.push(id).contains(x) {
                    let j = choose|j: int| 0 <= j < acc.push(id).len() && acc.push(id)[j] == x;
                    if j < acc.len() {
                        assert(acc[j] == x);
                    }
                }
                if acc.contains(x) {
                    let j = choose|j: int| 0 <= j < acc.len() && acc[j] == x;
                    assert(acc.push(id)[j] == x);
                }
                if x == id {
                    assert(acc.push(id)[acc.len() as int] == x);
                }
            }
        }
    }
}

/// Collecting a visgroup adds exactly its ID and those of its descendants.
pub proof fn lemma_collected_ids(g: VisGroupView, acc: Seq<i32>)
    ensures
        collected(g, acc).to_set() == acc.to_set() + tree_ids(g),
    decreases g, 0nat,
{
    lemma_with_id_set(acc, g.id);
    match g.children {
        Some(c) => {
            lemma_collected_all_ids(c, with_id(acc, g.id));
            assert(collected(g, acc).to_set() =~= acc.to_set() + tree_ids(g));
        },
        None => {
            assert(collected(g, acc).to_set() =~= acc.to_set() + tree_ids(g));
        },
    }
}

/// Collecting visgroups adds exactly their IDs and those of their
/// descendants.
pub proof fn lemma_collected_all_ids(gs: Seq<VisGroupView>, acc: Seq<i32>)
    ensures
        collected_all(gs, acc).to_set() == acc.to_set() + trees_ids(gs),
    decreases gs, 1nat,
{
    if gs.len() > 0 {
        lemma_collected_all_ids(gs.drop_last(), acc);
        lemma_collected_ids(gs.last(), collected_all(gs.drop_last(), acc));
        assert(collected_all(gs, acc).to_set() =~= acc.to_set() + trees_ids(gs));
    }
}

/// Finds a visgroup by ID among `groups` and their descendants.
fn find_in(groups: &Vec<VisGroup>, id: i32) -> (r: Option<&VisGroup>)
    ensures
        match find_id(vgs_view(groups@), id) {
            Some(v) => r is Some && r->0@ == v,
            None => r is None,
        },
    decreases groups@,
{
    let ghost gv = vgs_view(groups@);
    proof {
        lemma_vgs_view(groups@);
    }
    let mut i: usize = 0;
    assert(gv.skip(0) =~= gv);
    while i < groups.len()
        invariant
            i <= groups@.len(),
            gv == vgs_view(groups@),
            gv.len() == groups@.len(),
            forall|j: int| 0 <= j < gv.len() ==> gv[j] == vg_view(groups@[j]),
            find_id(gv, id) == find_id(gv.skip(i as int), id),
        decreases groups.len() - i,
    {
        let g = &groups[i];
        assert(gv.skip(i as int)[0] == gv[i as int]);
        assert(gv.skip(i as int).drop_first() =~= gv.skip(i + 1));
        if g.id == id {
            return Some(g);
        }
        match &g.children {
            Some(c) => {
                proof {
                    assert(decreases_to!(groups@ => groups@[i as int]));
                    assert(decreases_to!(groups@[i as int] => groups@[i as int].children));
                    assert(decreases_to!(groups@[i as int].children => *c));
                    assert(decreases_to!(*c => c@));
                }
                match find_in(c, id) {
                    Some(f) => {
                        return Some(f);
                    },
                    None => {},
                }
            },
            None => {},
        }
        i = i + 1;
    }
    None
}

/// The index of the first of `gs` with the given ID, or -1.
pub open spec fn pos_id(gs: Seq<VisGroupView>, id: i32) -> int
    decreases gs.len(),
{
    if gs.len() == 0 {
        -1
    } else {
        let r = pos_id(gs.drop_last(), id);
        if r >= 0 {
            r
        } else if gs.last().id == id {
            gs.len() - 1
        } else {
            -1
        }
    }
}

/// Removing the visgroup with the given ID from `gs`: a group of `gs`
/// itself is removed first; else the first group, in order, whose
/// descendants hold one loses it there (and its children become `None`
/// when none are left). The groups left, and the group removed.
pub open spec fn removed(gs: Seq<VisGroupView>, id: i32) -> (Seq<VisGroupView>, Option<VisGroupView>)
    decreases gs, 1nat,
{
    let k = pos_id(gs, id);
    if 0 <= k < gs.len() {
        (gs.remove(k), Some(gs[k]))
    } else {
        removed_nested(gs, id)
    }
}

/// Removing the visgroup with the given ID from the descendants of `gs`,
/// group by group.
pub open spec fn removed_nested(gs: Seq<VisGroupView>, id: i32) -> (Seq<VisGroupView>, Option<VisGroupView>)
    decreases gs, 0nat,
{
    if gs.len() == 0 {
        (gs, None)
    } else {
        let g = gs[0];
        let inner = match g.children {
            Some(c) => removed(c, id),
            None => (Seq::empty(), None),
        };
        if inner.1 is Some {
            (
                gs.update(
                    0,
                    VisGroupView {
                        children: if inner.0.len() == 0 {
                            None
                        } else {
                            Some(inner.0)
                        },
                        ..g
                    },
                ),
                inner.1,
            )
        } else {
            let rest = removed_nested(gs.drop_first(), id);
            (seq![g] + rest.0, rest.1)
        }
    }
}

/// The view of an optional visgroup.
pub open spec fn opt_vg(o: Option<VisGroup>) -> Option<VisGroupView> {
    match o {
        Some(g) => Some(vg_view(g)),
        None => None,
    }
}

proof fn lemma_pos_id(gs: Seq<VisGroupView>, id: i32)
    ensures
        -1 <= pos_id(gs, id) < gs.len(),
        pos_id(gs, id) >= 0 ==> gs[pos_id(gs, id)].id == id,
        forall|j: int| 0 <= j < gs.len() && (pos_id(gs, id) < 0 || j < pos_id(gs, id)) ==> #[trigger] gs[j].id != id,
    decreases gs.len(),
{
    if gs.len() > 0 {
        lemma_pos_id(gs.drop_last(), id);
        assert forall|j: int| 0 <= j < gs.len() && (pos_id(gs, id) < 0 || j < pos_id(gs, id)) implies #[trigger] gs[j].id
            != id by {
            if j < gs.len() - 1 {
                assert(gs.drop_last()[j] == gs[j]);
            }
        }
    }
}

/// The number of visgroups in `gs` and their descendants.
pub open spec fn vg_count(gs: Seq<VisGroupView>) -> nat
    decreases gs,
{
    if gs.len() == 0 {
        0
    } else {
        let kids = match gs.last().children {
            Some(c) => vg_count(c),
            None => 0,
        };
        vg_count(gs.drop_last()) + 1 + kids
    }
}

pub proof fn lemma_vg_count(gs: Seq<VisGroupView>, i: int)
    requires
        0 <= i < gs.len(),
        gs[i].children is Some,
    ensures
        vg_count(gs[i].children->0) < vg_count(gs),
    decreases gs.len(),
{
    if i < gs.len() - 1 {
        assert(gs.drop_last()[i] == gs[i]);
        lemma_vg_count(gs.drop_last(), i);
    }
}

/// Removes the visgroup with the given ID from `groups` or their
/// descendants.
fn remove_in(groups: &mut Vec<VisGroup>, id: i32) -> (r: Option<VisGroup>)
    ensures
        (vgs_view(final(groups)@), opt_vg(r)) == removed(vgs_view(old(groups)@), id),
        r is None ==> vgs_view(final(groups)@) == vgs_view(old(groups)@),
    decreases vg_count(vgs_view(old(groups)@)),
{
    let ghost gv = vgs_view(groups@);
    proof {
        lemma_vgs_view(groups@);
        lemma_pos_id(gv, id);
    }
    let mut at: usize = 0;
    while at < groups.len()
        invariant
            at <= groups@.len(),
            groups@ == old(groups)@,
            gv == vgs_view(old(groups)@),
            gv == vgs_view(groups@),
            gv.len() == groups@.len(),
            forall|j: int| 0 <= j < gv.len() ==> gv[j] == vg_view(groups@[j]),
            forall|j: int| 0 <= j < at ==> (#[trigger] gv[j]).id != id,
            -1 <= pos_id(gv, id) < gv.len(),
            pos_id(gv, id) >= 0 ==> gv[pos_id(gv, id)].id == id,
        decreases groups.len() - at,
    {
        if groups[at].id == id {
            assert(gv[at as int].id == id);
            proof {
                lemma_pos_id(gv, id);
            }
            let g = groups.remove(at);
            proof {
                lemma_vgs_view(groups@);
                assert(vgs_view(groups@) =~= gv.remove(at as int));
            }
            return Some(g);
        }
        at = at + 1;
    }
    assert(pos_id(gv, id) < 0) by {
        if pos_id(gv, id) >= 0 {
            assert(gv[pos_id(gv, id)].id == id);
        }
    }
    let mut i: usize = 0;
    assert(gv.skip(0) =~= gv);
    assert(gv.take(0) + removed_nested(gv.skip(0), id).0 =~= removed_nested(gv, id).0);
    while i < groups.len()
        invariant
            i <= groups@.len(),
            gv == vgs_view(old(groups)@),
            gv == vgs_view(groups@),
            gv.len() == groups@.len(),
            forall|j: int| 0 <= j < gv.len() ==> gv[j] == vg_view(groups@[j]),
            pos_id(gv, id) < 0,
            removed_nested(gv, id) == (gv.take(i as int) + removed_nested(gv.skip(i as int), id).0, removed_nested(
                gv.skip(i as int),
                id,
            ).1),
        decreases groups.len() - i,
    {
        let ghost sk = gv.skip(i as int);
        assert(sk[0] == gv[i as int]);
        assert(sk.drop_first() =~= gv.skip(i + 1));
        let ghost g0 = groups@;
        let mut g = groups.remove(i);
        assert(vg_view(g) == gv[i as int]);
        match g.children {
            Some(c) => {
                let mut c = c;
                proof {
                    lemma_vg_count(gv, i as int);
                }
                let ghost cv = vgs_view(c@);
                let found = remove_in(&mut c, id);
                match found {
                    Some(f) => {
                        proof {
                            lemma_vgs_view(c@);
                        }
                        if c.len() == 0 {
                            g.children = None;
                        } else {
                            g.children = Some(c);
                        }
                        let ghost g2 = vg_view(g);
                        groups.insert(i, g);
                        proof {
                            lemma_vgs_view(groups@);
                            assert(sk.update(0, g2) =~= removed_nested(sk, id).0);
                            assert(vgs_view(groups@) =~= gv.take(i as int) + sk.update(0, g2));
                        }
                        return Some(f);
                    },
                    None => {
                        g.children = Some(c);
                        assert(vg_view(g) == gv[i as int]);
                        groups.insert(i, g);
                        proof {
                            lemma_vgs_view(groups@);
                            assert(vgs_view(groups@) =~= gv);
                        }
                    },
                }
            },
            None => {
                groups.insert(i, g);
                proof {
                    lemma_vgs_view(groups@);
                    assert(vgs_view(groups@) =~= gv);
                }
            },
        }
        assert(gv.take(i + 1) =~= gv.take(i as int).push(gv[i as int]));
        assert(gv.take(i as int) + (seq![gv[i as int]] + removed_nested(gv.skip(i + 1), id).0) =~= gv.take(i + 1)
            + removed_nested(gv.skip(i + 1), id).0);
        i = i + 1;
    }
    assert(gv.take(gv.len() as int) =~= gv);
    assert(removed_nested(gv.skip(gv.len() as int), id).0 =~= Seq::<VisGroupView>::empty());
    assert(gv + Seq::<VisGroupView>::empty() =~= gv);
    None
}

/// Finds a visgroup by name among `groups` and their descendants.
fn find_name_in<'a>(groups: &'a Vec<VisGroup>, name: &str) -> (r: Option<&'a VisGroup>)
    ensures
        match find_name(vgs_view(groups@), name@) {
            Some(v) => r is Some && r->0@ == v,
            None => r is None,
        },
    decreases groups@,
{
    let ghost gv = vgs_view(groups@);
    proof {
        lemma_vgs_view(groups@);
    }
    let mut i: usize = 0;
    assert(gv.skip(0) =~= gv);
    while i < groups.len()
        invariant
            i <= groups@.len(),
            gv == vgs_view(groups@),
            gv.len() == groups@.len(),
            forall|j: int| 0 <= j < gv.len() ==> gv[j] == vg_view(groups@[j]),
            find_name(gv, name@) == find_name(gv.skip(i as int), name@),
        decreases groups.len() - i,
    {
        let g = &groups[i];
        assert(gv.skip(i as int)[0] == gv[i as int]);
        assert(gv.skip(i as int).drop_first() =~= gv.skip(i + 1));
        if str_eq(g.name.as_str(), name) {
            return Some(g);
        }
        match &g.children {
            Some(c) => {
                proof {
                    assert(decreases_to!(groups@ => groups@[i as int]));
                    assert(decreases_to!(groups@[i as int] => groups@[i as int].children));
                    assert(decreases_to!(groups@[i as int].children => *c));
                    assert(decreases_to!(*c => c@));
                }
                match find_name_in(c, name) {
                    Some(f) => {
                        return Some(f);
                    },
                    None => {},
                }
            },
            None => {},
        }
        i = i + 1;
    }
    None
}

/// The highest ID among `groups` and their descendants, and 0.
fn highest_in(groups: &Vec<VisGroup>) -> (r: i32)
    ensures
        r == highest(vgs_view(groups@)),
    decreases groups@,
{
    let ghost gv = vgs_view(groups@);
    proof {
        lemma_vgs_view(groups@);
    }
    let mut best: i32 = 0;
    let mut i: usize = 0;
    assert(gv.take(0) =~= Seq::<VisGroupView>::empty());
    while i < groups.len()
        invariant
            i <= groups@.len(),
            gv == vgs_view(groups@),
            gv.len() == groups@.len(),
            forall|j: int| 0 <= j < gv.len() ==> gv[j] == vg_view(groups@[j]),
            best == highest(gv.take(i as int)),
        decreases groups.len() - i,
    {
        let g = &groups[i];
        assert(gv.take(i + 1).drop_last() =~= gv.take(i as int));
        assert(gv.take(i + 1).last() == gv[i as int]);
        let kids = match &g.children {
            Some(c) => {
                proof {
                    assert(decreases_to!(groups@ => groups@[i as int]));
                    assert(decreases_to!(groups@[i as int] => groups@[i as int].children));
                    assert(decreases_to!(groups@[i as int].children => *c));
                    assert(decreases_to!(*c => c@));
                }
                highest_in(c)
            },
            None => 0,
        };
        let b = if best >= g.id {
            best
        } else {
            g.id
        };
        best = if b >= kids {
            b
        } else {
            kids
        };
        i = i + 1;
    }
    assert(gv.take(groups@.len() as int) =~= gv);
    best
}

impl VisGroup {
    /// Collects this visgroup's ID and those of all its descendants into
    /// `ids`, each added unless it is there already.
    #[verifier::loop_isolation(false)]
    pub fn collect_ids(&self, ids: &mut Vec<i32>)
        ensures
            final(ids)@ == collected(self@, old(ids)@),
            final(ids)@.to_set() == old(ids)@.to_set() + tree_ids(self@),
        decreases self,
    {
        proof {
            lemma_collected_ids(self@, old(ids)@);
        }
        let mut k: usize = 0;
        let mut present = false;
        while k < ids.len()
            invariant
                k <= ids@.len(),
                ids@ == old(ids)@,
                present ==> old(ids)@.contains(self.id),
                !present ==> forall|j: int| 0 <= j < k ==> ids@[j] != self.id,
            decreases ids.len() - k,
        {
            if ids[k] == self.id {
                assert(ids@[k as int] == self.id);
                present = true;
            }
            k = k + 1;
        }
        if !present {
            ids.push(self.id);
        }
        assert(ids@ == with_id(old(ids)@, self.id));
        match &self.children {
            Some(c) => {
                let ghost a0 = ids@;
                let mut i: usize = 0;
                proof {
                    lemma_vgs_view(c@);
                }
                let ghost cv = vgs_view(c@);
                assert(cv.take(0) =~= Seq::<VisGroupView>::empty());
                while i < c.len()
                    invariant
                        i <= c@.len(),
                        cv == vgs_view(c@),
                        ids@ == collected_all(cv.take(i as int), a0),
                    decreases c.len() - i,
                {
                    proof {
                        assert(decreases_to!(*self => self.children));
                        assert(decreases_to!(self.children => *c));
                        assert(decreases_to!(*c => c@));
                        assert(decreases_to!(c@ => c@[i as int]));
                    }
                    assert(cv.take(i + 1).drop_last() =~= cv.take(i as int));
                    c[i].collect_ids(ids);
                    i = i + 1;
                }
                assert(cv.take(c@.len() as int) =~= cv);
            },
            None => {},
        }
    }
}

impl VisGroups {
    /// No visgroups.
    pub fn new() -> (v: Self)
        ensures
            v@.groups.len() == 0,
            v@.extra == (Seq::<(Seq<char>, Seq<char>)>::empty(), Seq::<BlockTree>::empty()),
    {
        let v = VisGroups { groups: Vec::new(), extra: Extras::new() };
        assert(v@.extra.0 =~= Seq::<(Seq<char>, Seq<char>)>::empty());
        assert(v@.extra.1 =~= Seq::<BlockTree>::empty());
        v
    }

    /// Reads the `visgroups` block.
    pub fn from_block(block: VmfBlock, ctx: &mut ParseCtx) -> (v: Self)
        ensures
            v@ == visgroups_of(block@),
            final(ctx)@ == visgroups_ctx(old(ctx)@, block@),
            final(ctx)@.path == old(ctx)@.path,
    {
        ctx.enter("visgroups");
        let ghost ce = ctx@;
        let ghost bv = block@;
        let VmfBlock { name: _, key_values, blocks } = block;
        let ghost v0 = blocks@;
        let ghost bt = blocks_tree(v0);
        let mut q = into_queue(blocks);
        let n = q.len();
        let mut groups: Vec<VisGroup> = Vec::new();
        let mut unknown: Vec<VmfBlock> = Vec::new();
        let mut i: usize = 0;
        assert(bt.take(0) =~= Seq::<BlockTree>::empty());
        assert(blocks_tree(unknown@) =~= Seq::<BlockTree>::empty());
        assert(vgs_view(groups@) =~= Seq::<VisGroupView>::empty());
        let ghost p = ctx@.path;
        while i < n
            invariant
                i <= n,
                n == v0.len(),
                bt == blocks_tree(v0),
                q@ == v0.skip(i as int).reverse(),
                vg_blocks(bt.take(i as int)) == (vgs_view(groups@), blocks_tree(unknown@)),
                ctx@ == vg_blocks_ctx(ce, bt.take(i as int)),
                ctx@.path == p,
            decreases n - i,
        {
            let b = next_block(&mut q, Ghost(v0), Ghost(i as int));
            assert(bt.take(i + 1).drop_last() =~= bt.take(i as int));
            if eq_ignore_ascii_case(b.name.as_str(), "visgroup") {
                ctx.enter_indexed("visgroup", i);
                let g = VisGroup::from_block(b, ctx);
                ctx.leave();
                assert(ctx@.path =~= p);
                let ghost k0 = groups@;
                groups.push(g);
                assert(groups@.drop_last() =~= k0);
            } else {
                let mut m = String::new();
                m.append("unexpected block '");
                m.append(b.name.as_str());
                m.append("', kept as-is");
                assert(m@ =~= unexpected_msg(b@.name));
                ctx.warn(m.as_str());
                let ghost u0 = unknown@;
                unknown.push(b);
                assert(unknown@.drop_last() =~= u0);
            }
            i = i + 1;
        }
        assert(bt.take(n as int) =~= bt);
        ctx.leave();
        assert(ctx@.path =~= old(ctx)@.path);
        VisGroups { groups, extra: Extras { key_values, blocks: unknown } }
    }

    /// Finds a visgroup by name, depth-first.
    pub fn find_by_name(&self, name: &str) -> (r: Option<&VisGroup>)
        ensures
            match find_name(self@.groups, name@) {
                Some(v) => r is Some && r->0@ == v,
                None => r is None,
            },
    {
        find_name_in(&self.groups, name)
    }

    /// Finds a visgroup by ID, depth-first.
    pub fn find_by_id(&self, id: i32) -> (r: Option<&VisGroup>)
        ensures
            match find_id(self@.groups, id) {
                Some(v) => r is Some && r->0@ == v,
                None => r is None,
            },
    {
        find_in(&self.groups, id)
    }

    /// An unused visgroup ID: one higher than the highest in use (and than
    /// 0).
    pub fn next_id(&self) -> (r: i32)
        requires
            highest(self@.groups) < i32::MAX,
        ensures
            r == highest(self@.groups) + 1,
    {
        highest_in(&self.groups) + 1
    }

    /// Adds a top-level visgroup named `name` with the next ID and returns
    /// that ID.
    pub fn create(&mut self, name: &str) -> (id: i32)
        requires
            highest(old(self)@.groups) < i32::MAX,
        ensures
            id == highest(old(self)@.groups) + 1,
            final(self)@ == (VisGroupsView {
                groups: old(self)@.groups.push(
                    VisGroupView {
                        name: name@,
                        id,
                        color: white(),
                        children: None,
                        extra: (Seq::empty(), Seq::empty()),
                    },
                ),
                ..old(self)@
            }),
    {
        let id = self.next_id();
        let g = VisGroup {
            name: name.to_string(),
            id,
            color: String::from_str("255 255 255"),
            children: None,
            extra: Extras::new(),
        };
        assert(g@.extra.0 =~= Seq::<(Seq<char>, Seq<char>)>::empty());
        assert(g@.extra.1 =~= Seq::<BlockTree>::empty());
        let ghost g0 = self.groups@;
        self.groups.push(g);
        assert(self.groups@.drop_last() =~= g0);
        id
    }

    /// Removes the visgroup with the given ID, and its children with it: a
    /// top-level one first, else the first found among the descendants of
    /// the groups in order. The memberships of entities and solids stay as
    /// they are.
    pub fn remove_by_id(&mut self, id: i32) -> (r: Option<VisGroup>)
        ensures
            (final(self)@.groups, opt_vg(r)) == removed(old(self)@.groups, id),
            final(self)@.extra == old(self)@.extra,
    {
        remove_in(&mut self.groups, id)
    }

    /// The IDs of the visgroup `group_id` (found depth-first), and with
    /// `include_children` those of its descendants; none where no visgroup
    /// has that ID.
    pub fn resolve_ids(&self, group_id: i32, include_children: bool) -> (r: Option<Vec<i32>>)
        ensures
            match find_id(self@.groups, group_id) {
                Some(g) => r is Some && r->0@ == if include_children {
                    collected(g, Seq::empty())
                } else {
                    seq![g.id]
                },
                None => r is None,
            },
    {
        match self.find_by_id(group_id) {
            Some(g) => {
                let mut ids: Vec<i32> = Vec::new();
                if include_children {
                    assert(ids@ =~= Seq::<i32>::empty());
                    g.collect_ids(&mut ids);
                } else {
                    ids.push(g.id);
                    assert(ids@ =~= seq![g.id]);
                }
                Some(ids)
            },
            None => None,
        }
    }
}

impl VmfSerializable for VisGroups {
    fn to_vmf_string(&self, indent_level: usize) -> (output: String)
        ensures
            output@ == visgroups_block_text(self@, indent_level as nat),
    {
        let indent = tab_string(indent_level);
        let ind = indent.as_str();
        let mut output = String::new();
        write_head(&mut output, ind, "visgroups");
        assert(output@ =~= head_text(indent_level as nat, "visgroups"@));
        let inner = next_indent(indent_level);
        self.extra.write_key_values(&mut output, inner);
        let ghost o0 = output@;
        let ghost gv = vgs_view(self.groups@);
        proof {
            lemma_vgs_view(self.groups@);
        }
        let mut i: usize = 0;
        assert(gv.take(0) =~= Seq::<VisGroupView>::empty());
        while i < self.groups.len()
            invariant
                i <= self.groups@.len(),
                gv == vgs_view(self.groups@),
                gv.len() == self.groups@.len(),
                forall|j: int| 0 <= j < gv.len() ==> gv[j] == vg_view(self.groups@[j]),
                output@ == o0 + visgroups_text(gv.take(i as int), indent_level as nat),
            decreases self.groups.len() - i,
        {
            assert(gv.take(i + 1).drop_last() =~= gv.take(i as int));
            let t = self.groups[i].to_vmf_string(indent_level);
            output.append(t.as_str());
            i = i + 1;
        }
        assert(gv.take(self.groups@.len() as int) =~= gv);
        self.extra.write_blocks(&mut output, inner);
        write_tail(&mut output, ind);
        output
    }
}

/// The highest ID bounds every ID of the top-level groups and the highest
/// ID among their descendants, and is at least 0.
proof fn lemma_highest_bounds(gs: Seq<VisGroupView>)
    ensures
        highest(gs) >= 0,
        forall|i: int| 0 <= i < gs.len() ==> (#[trigger] gs[i]).id <= highest(gs),
        forall|i: int| 0 <= i < gs.len() && (#[trigger] gs[i]).children is Some ==> highest(gs[i].children->0) <= highest(gs),
    decreases gs.len(),
{
    if gs.len() > 0 {
        lemma_highest_bounds(gs.drop_last());
        assert forall|i: int| 0 <= i < gs.len() - 1 implies #[trigger] gs[i] == gs.drop_last()[i] by {}
    }
}

/// A bound of every ID of the groups and of the highest ID among their
/// descendants bounds the highest ID.
proof fn lemma_highest_at_most(gs: Seq<VisGroupView>, m: int)
    requires
        m >= 0,
        forall|i: int| 0 <= i < gs.len() ==> (#[trigger] gs[i]).id <= m,
        forall|i: int| 0 <= i < gs.len() && (#[trigger] gs[i]).children is Some ==> highest(gs[i].children->0) <= m,
    ensures
        highest(gs) <= m,
    decreases gs.len(),
{
    if gs.len() > 0 {
        assert forall|i: int| 0 <= i < gs.len() - 1 implies #[trigger] gs.drop_last()[i] == gs[i] by {}
        lemma_highest_at_most(gs.drop_last(), m);
        assert(gs[gs.len() - 1].id <= m);
    }
}

/// No group among `gs` and their descendants has an ID above the highest.
proof fn lemma_find_above(gs: Seq<VisGroupView>, id: i32)
    requires
        id > highest(gs),
    ensures
        find_id(gs, id) is None,
    decreases gs,
{
    if gs.len() > 0 {
        lemma_highest_bounds(gs);
        assert(gs[0].id <= highest(gs));
        match gs[0].children {
            Some(c) => {
                assert(highest(c) <= highest(gs));
                lemma_find_above(c, id);
            },
            None => {},
        }
        assert forall|i: int| 0 <= i < gs.drop_first().len() implies #[trigger] gs.drop_first()[i] == gs[i + 1] by {}
        lemma_highest_at_most(gs.drop_first(), highest(gs));
        lemma_find_above(gs.drop_first(), id);
    }
}

/// A group added after groups none of which, at any depth, has its ID is
/// the one that a search by its ID finds.
pub proof fn lemma_added_group_is_found(gs: Seq<VisGroupView>, g: VisGroupView)
    requires
        find_id(gs, g.id) is None,
    ensures
        find_id(gs.push(g), g.id) == Some(g),
    decreases gs.len(),
{
    let s = gs.push(g);
    if gs.len() == 0 {
        assert(s[0] == g);
    } else {
        assert(s[0] == gs[0]);
        assert(gs[0].id != g.id);
        assert(s.drop_first() =~= gs.drop_first().push(g));
        lemma_added_group_is_found(gs.drop_first(), g);
    }
}

/// The visgroup that `create` adds is the one that `find_by_id` finds by
/// the ID that `create` returned.
pub proof fn lemma_created_is_found(gs: Seq<VisGroupView>, name: Seq<char>)
    requires
        highest(gs) < i32::MAX,
    ensures
        find_id(
            gs.push(
                VisGroupView {
                    name,
                    id: (highest(gs) + 1) as i32,
                    color: white(),
                    children: None,
                    extra: (Seq::empty(), Seq::empty()),
                },
            ),
            (highest(gs) + 1) as i32,
        ) == Some(
            VisGroupView {
                name,
                id: (highest(gs) + 1) as i32,
                color: white(),
                children: None,
                extra: (Seq::empty(), Seq::empty()),
            },
        ),
{
    lemma_highest_bounds(gs);
    let g = VisGroupView {
        name,
        id: (highest(gs) + 1) as i32,
        color: white(),
        children: None,
        extra: (Seq::empty(), Seq::empty()),
    };
    lemma_find_above(gs, g.id);
    lemma_added_group_is_found(gs, g);
}

} // verus!
