//! The world block of a map file: its solids, the sides of solids, hidden
//! solids, and groups.

use vstd::prelude::*;
use indexmap::IndexMap;
use crate::kv::ser::tabs;
use crate::ordmap::str_entries;
use crate::text::{dec, dec_int, eq_ignore_ascii_case, i64_to_string, u64_to_string};
use crate::vmf::block::{BlockTree, Extras, VmfBlock, blocks_text, blocks_tree, lemma_blocks_tree, pairs_text,
    tab_string, next_indent, next_level, write_pairs};
use crate::vmf::common::{editor_ctx, Editor, EditorView, VmfSerializable, default_editor, editor_of, editor_text, extras_view,
    opt_line_at, opt_view, write_opt};
use crate::vmf::disp::{DispInfo, DispInfoView, dispinfo_ctx, dispinfo_of, dispinfo_text};
use crate::vmf::parse_ctx::{CtxView, ParseCtx, indexed_segment, warned};
use crate::vmf::typed::{head_lines, head_text, into_queue, named, next_block, pair_line, tail_line, tail_text,
    write_head, write_pair, write_tail};
use crate::vmf::utils::{at_path, entered, unexpected_msg, unexpected_ctx, parse_or_ctx, opt_text_ctx, opt_parse_ctx, str_ctx, multi_ctx, FieldValue, Pairs, parse_or, take_key, take_opt_parse, take_parse, take_str, taken,
    warn_if_repeated};

verus! {

broadcast use {lemma_blocks_tree, crate::vmf::utils::group_ctx_paths};

/// The content of a [`Side`].
pub struct SideView {
    pub id: u32,
    pub plane: Seq<char>,
    pub material: Seq<char>,
    pub u_axis: Seq<char>,
    pub v_axis: Seq<char>,
    pub rotation: Option<Seq<char>>,
    pub lightmap_scale: u16,
    pub smoothing_groups: i32,
    pub flags: Option<u32>,
    pub dispinfo: Option<DispInfoView>,
    pub extra: (Pairs, Seq<BlockTree>),
}

/// Represents a side of a solid. The texture rotation, a floating-point
/// number, is kept as the text written in the file.
#[derive(Debug, PartialEq)]
pub struct Side {
    pub id: u32,
    pub plane: String,
    pub material: String,
    pub u_axis: String,
    pub v_axis: String,
    /// The rotation of the texture, as written.
    pub rotation: Option<String>,
    pub lightmap_scale: u16,
    pub smoothing_groups: i32,
    pub flags: Option<u32>,
    pub dispinfo: Option<DispInfo>,
    /// Keys and blocks this struct does not model.
    pub extra: Extras,
}

impl View for Side {
    type V = SideView;

    open spec fn view(&self) -> SideView {
        SideView {
            id: self.id,
            plane: self.plane@,
            material: self.material@,
            u_axis: self.u_axis@,
            v_axis: self.v_axis@,
            rotation: opt_view(self.rotation),
            lightmap_scale: self.lightmap_scale,
            smoothing_groups: self.smoothing_groups,
            flags: self.flags,
            dispinfo: match self.dispinfo {
                Some(d) => Some(d@),
                None => None,
            },
            extra: extras_view(self.extra),
        }
    }
}

/// The value of an optional number, or `d`.
pub open spec fn opt_or<T: FieldValue>(v: Option<Seq<char>>, d: T) -> T {
    match v {
        Some(t) => match T::parse_spec(t) {
            Some(x) => x,
            None => d,
        },
        None => d,
    }
}

/// The number that an optional text stands for.
pub open spec fn opt_num<T: FieldValue>(v: Option<Seq<char>>) -> Option<T> {
    match v {
        Some(t) => T::parse_spec(t),
        None => None,
    }
}

/// The text, or `d` where it is missing.
pub open spec fn text_or(v: Option<Seq<char>>, d: Seq<char>) -> Seq<char> {
    match v {
        Some(t) => t,
        None => d,
    }
}

/// The displacement (the last `dispinfo` block) and the other blocks of a
/// side.
pub open spec fn side_blocks(bs: Seq<BlockTree>) -> (Option<DispInfoView>, Seq<BlockTree>)
    decreases bs.len(),
{
    if bs.len() == 0 {
        (None, Seq::empty())
    } else {
        let (d, u) = side_blocks(bs.drop_last());
        if named(bs.last(), "dispinfo"@) {
            (Some(dispinfo_of(bs.last())), u)
        } else {
            (d, u.push(bs.last()))
        }
    }
}

/// The context after reading the blocks of a `side` block: each
/// displacement is read within it, and each other block is warned of.
pub open spec fn side_blocks_ctx(c: CtxView, bs: Seq<BlockTree>) -> CtxView
    decreases bs.len(),
{
    if bs.len() == 0 {
        c
    } else {
        let c1 = side_blocks_ctx(c, bs.drop_last());
        if named(bs.last(), "dispinfo"@) {
            at_path(dispinfo_ctx(entered(c1, "dispinfo"@), bs.last()), c1.path)
        } else {
            warned(c1, unexpected_msg(bs.last().name))
        }
    }
}

/// The context after reading a `side` block: the warnings of its blocks,
/// then those of its pairs, missing or unreadable, in the order they are
/// read.
#[verifier::opaque]
pub open spec fn side_ctx(c: CtxView, b: BlockTree) -> CtxView {
    let c0 = side_blocks_ctx(c, b.blocks);
    let (id, k1) = taken(b.kvs, "id"@);
    let (plane, k2) = taken(k1, "plane"@);
    let (material, k3) = taken(k2, "material"@);
    let (u, k4) = taken(k3, "uaxis"@);
    let (v, k5) = taken(k4, "vaxis"@);
    let (rotation, k6) = taken(k5, "rotation"@);
    let (scale, k7) = taken(k6, "lightmapscale"@);
    let (smoothing, k8) = taken(k7, "smoothing_groups"@);
    let (flags, _) = taken(k8, "flags"@);
    let c1 = parse_or_ctx(c0, "id"@, id, 0u32);
    let c2 = str_ctx(c1, "plane"@, plane, "(0 0 0) (0 0 0) (0 0 0)"@);
    let c3 = str_ctx(c2, "material"@, material, "TOOLS/TOOLSNODRAW"@);
    let c4 = str_ctx(c3, "uaxis"@, u, "[1 0 0 0] 0.25"@);
    let c5 = str_ctx(c4, "vaxis"@, v, "[0 -1 0 0] 0.25"@);
    let c6 = opt_text_ctx(c5, "rotation"@, rotation);
    let c7 = opt_parse_ctx::<u16>(c6, "lightmapscale"@, scale);
    let c8 = opt_parse_ctx::<i32>(c7, "smoothing_groups"@, smoothing);
    opt_parse_ctx::<u32>(c8, "flags"@, flags)
}

/// The side read from a `side` block: its fields with their defaults
/// where missing, the displacement, and the other pairs and blocks.
#[verifier::opaque]
pub open spec fn side_of(b: BlockTree) -> SideView {
    let (disp, unknown) = side_blocks(b.blocks);
    let (id, k1) = taken(b.kvs, "id"@);
    let (plane, k2) = taken(k1, "plane"@);
    let (material, k3) = taken(k2, "material"@);
    let (u, k4) = taken(k3, "uaxis"@);
    let (v, k5) = taken(k4, "vaxis"@);
    let (rotation, k6) = taken(k5, "rotation"@);
    let (scale, k7) = taken(k6, "lightmapscale"@);
    let (smoothing, k8) = taken(k7, "smoothing_groups"@);
    let (flags, k9) = taken(k8, "flags"@);
    SideView {
        id: parse_or(id, 0u32),
        plane: text_or(plane, "(0 0 0) (0 0 0) (0 0 0)"@),
        material: text_or(material, "TOOLS/TOOLSNODRAW"@),
        u_axis: text_or(u, "[1 0 0 0] 0.25"@),
        v_axis: text_or(v, "[0 -1 0 0] 0.25"@),
        rotation,
        lightmap_scale: opt_or(scale, 16u16),
        smoothing_groups: opt_or(smoothing, 0i32),
        flags: opt_num::<u32>(flags),
        dispinfo: disp,
        extra: (k9, unknown),
    }
}

/// The text of a side as a block at `level`.
#[verifier::opaque]
pub open spec fn side_text(s: SideView, level: nat) -> Seq<char> {
    let ind = tabs(level);
    head_text(level, "side"@) + pair_line(ind, "id"@, dec(s.id as nat)) + pair_line(ind, "plane"@, s.plane)
        + pair_line(ind, "material"@, s.material) + pair_line(ind, "uaxis"@, s.u_axis) + pair_line(
        ind,
        "vaxis"@,
        s.v_axis,
    ) + opt_line_at(ind, "rotation"@, s.rotation) + pair_line(ind, "lightmapscale"@, dec(s.lightmap_scale as nat))
        + pair_line(ind, "smoothing_groups"@, dec_int(s.smoothing_groups as int)) + opt_line_at(
        ind,
        "flags"@,
        match s.flags {
            Some(f) => Some(dec(f as nat)),
            None => None,
        },
    ) + pairs_text(tabs(next_level(level)), s.extra.0) + match s.dispinfo {
        Some(d) => dispinfo_text(d, next_level(level)),
        None => Seq::empty(),
    } + blocks_text(s.extra.1, next_level(level)) + tail_text(level)
}

/// Writes the message of a block kept as it is.
fn warn_unexpected(ctx: &mut ParseCtx, name: &str)
    ensures
        final(ctx)@ == warned(old(ctx)@, "unexpected block '"@ + name@ + "', kept as-is"@),
        final(ctx)@.path == old(ctx)@.path,
{
    let mut m = String::new();
    m.append("unexpected block '");
    m.append(name);
    m.append("', kept as-is");
    ctx.warn(m.as_str());
}

/// Removes `key` if present, warning if it holds several values.
fn take_opt_text(map: &mut IndexMap<String, String>, key: &str, ctx: &mut ParseCtx) -> (r: Option<String>)
    ensures
        str_entries(*final(map)) == taken(str_entries(*old(map)), key@).1,
        opt_view(r) == taken(str_entries(*old(map)), key@).0,
        final(ctx)@ == opt_text_ctx(old(ctx)@, key@, taken(str_entries(*old(map)), key@).0),
        final(ctx)@.path == old(ctx)@.path,
{
    match take_key(map, key) {
        Some(v) => {
            warn_if_repeated(key, v.as_str(), ctx);
            Some(v)
        },
        None => None,
    }
}

impl Side {
    /// Reads a `side` block.
    pub fn from_block(block: VmfBlock, ctx: &mut ParseCtx) -> (s: Self)
        ensures
            s@ == side_of(block@),
            final(ctx)@ == side_ctx(old(ctx)@, block@),
            final(ctx)@.path == old(ctx)@.path,
    {
        proof {
            reveal(side_of);
            reveal(side_ctx);
        }
        let ghost c0 = ctx@;
        let ghost bv = block@;
        let VmfBlock { name: _, key_values, blocks } = block;
        let ghost v0 = blocks@;
        let ghost bt = blocks_tree(v0);
        let mut q = into_queue(blocks);
        let n = q.len();
        let mut dispinfo: Option<DispInfo> = None;
        let mut unknown: Vec<VmfBlock> = Vec::new();
        let mut i: usize = 0;
        assert(bt.take(0) =~= Seq::<BlockTree>::empty());
        assert(blocks_tree(unknown@) =~= Seq::<BlockTree>::empty());
        while i < n
            invariant
                i <= n,
                n == v0.len(),
                bt == blocks_tree(v0),
                q@ == v0.skip(i as int).reverse(),
                (match dispinfo {
                    Some(d) => Some(d@),
                    None => None,
                }, blocks_tree(unknown@)) == side_blocks(bt.take(i as int)),
                ctx@ == side_blocks_ctx(c0, bt.take(i as int)),
                ctx@.path == old(ctx)@.path,
            decreases n - i,
        {
            let b = next_block(&mut q, Ghost(v0), Ghost(i as int));
            assert(bt.take(i + 1).drop_last() =~= bt.take(i as int));
            if eq_ignore_ascii_case(b.name.as_str(), "dispinfo") {
                let ghost p = ctx@.path;
                ctx.enter("dispinfo");
                let d = DispInfo::from_block(b, ctx);
                ctx.leave();
                assert(p.push("dispinfo"@).drop_last() =~= p);
                dispinfo = Some(d);
            } else {
                warn_unexpected(ctx, b.name.as_str());
                let ghost u0 = unknown@;
                unknown.push(b);
                assert(unknown@.drop_last() =~= u0);
            }
            i = i + 1;
        }
        assert(bt.take(n as int) =~= bt);
        let mut kv = key_values;
        let id = take_parse::<u32>(&mut kv, "id", 0, ctx);
        let plane = take_str(&mut kv, "plane", "(0 0 0) (0 0 0) (0 0 0)", ctx);
        let material = take_str(&mut kv, "material", "TOOLS/TOOLSNODRAW", ctx);
        let u_axis = take_str(&mut kv, "uaxis", "[1 0 0 0] 0.25", ctx);
        let v_axis = take_str(&mut kv, "vaxis", "[0 -1 0 0] 0.25", ctx);
        let rotation = take_opt_text(&mut kv, "rotation", ctx);
        let lightmap_scale = match take_opt_parse::<u16>(&mut kv, "lightmapscale", ctx) {
            Some(x) => x,
            None => 16,
        };
        let smoothing_groups = match take_opt_parse::<i32>(&mut kv, "smoothing_groups", ctx) {
            Some(x) => x,
            None => 0,
        };
        let flags = take_opt_parse::<u32>(&mut kv, "flags", ctx);
        Side {
            id,
            plane,
            material,
            u_axis,
            v_axis,
            rotation,
            lightmap_scale,
            smoothing_groups,
            flags,
            dispinfo,
            extra: Extras { key_values: kv, blocks: unknown },
        }
    }
}

impl VmfSerializable for Side {
    fn to_vmf_string(&self, indent_level: usize) -> (output: String)
        ensures
            output@ == side_text(self@, indent_level as nat),
    {
        proof {
            reveal(side_text);
        }
        let indent = tab_string(indent_level);
        let ind = indent.as_str();
        let mut output = String::new();
        write_head(&mut output, ind, "side");
        assert(output@ =~= head_text(indent_level as nat, "side"@));
        let id = u64_to_string(self.id as u64);
        write_pair(&mut output, ind, "id", id.as_str());
        write_pair(&mut output, ind, "plane", self.plane.as_str());
        write_pair(&mut output, ind, "material", self.material.as_str());
        write_pair(&mut output, ind, "uaxis", self.u_axis.as_str());
        write_pair(&mut output, ind, "vaxis", self.v_axis.as_str());
        write_opt(&mut output, ind, "rotation", &self.rotation);
        let ls = u64_to_string(self.lightmap_scale as u64);
        write_pair(&mut output, ind, "lightmapscale", ls.as_str());
        let sg = i64_to_string(self.smoothing_groups as i64);
        write_pair(&mut output, ind, "smoothing_groups", sg.as_str());
        let f = match self.flags {
            Some(x) => Some(u64_to_string(x as u64)),
            None => None,
        };
        write_opt(&mut output, ind, "flags", &f);
        let inner = next_indent(indent_level);
        self.extra.write_key_values(&mut output, inner);
        match &self.dispinfo {
            Some(d) => {
                let t = d.to_vmf_string(inner);
                output.append(t.as_str());
            },
            None => {
                assert(output@ =~= output@ + Seq::<char>::empty());
            },
        }
        self.extra.write_blocks(&mut output, inner);
        write_tail(&mut output, ind);
        output
    }
}

/// The content of a [`Solid`].
pub struct SolidView {
    pub id: u64,
    pub sides: Seq<SideView>,
    pub editor: EditorView,
    pub extra: (Pairs, Seq<BlockTree>),
}

/// Represents a solid of the world or of an entity.
#[derive(Debug, PartialEq)]
pub struct Solid {
    /// The unique ID of the solid.
    pub id: u64,
    /// The sides of the solid.
    pub sides: Vec<Side>,
    /// The editor data for the solid.
    pub editor: Editor,
    /// Keys and blocks this struct does not model.
    pub extra: Extras,
}

/// The contents of a list of sides.
pub open spec fn sides_view(v: Seq<Side>) -> Seq<SideView> {
    v.map_values(|s: Side| s@)
}

impl View for Solid {
    type V = SolidView;

    open spec fn view(&self) -> SolidView {
        SolidView { id: self.id, sides: sides_view(self.sides@), editor: self.editor@, extra: extras_view(self.extra) }
    }
}

/// The contents of a list of solids.
pub open spec fn solids_view(v: Seq<Solid>) -> Seq<SolidView> {
    v.map_values(|s: Solid| s@)
}

/// What the blocks of a solid give: its sides, its editor data (from the
/// last `editor` block) and the other blocks.
pub struct SolidParts {
    pub sides: Seq<SideView>,
    pub editor: EditorView,
    pub unknown: Seq<BlockTree>,
}

pub open spec fn solid_blocks(bs: Seq<BlockTree>) -> SolidParts
    decreases bs.len(),
{
    if bs.len() == 0 {
        SolidParts { sides: Seq::empty(), editor: default_editor(), unknown: Seq::empty() }
    } else {
        solid_step(solid_blocks(bs.drop_last()), bs.last())
    }
}

/// The parts of a solid after one more of its blocks.
pub open spec fn solid_step(p: SolidParts, b: BlockTree) -> SolidParts {
    if named(b, "side"@) {
        SolidParts { sides: p.sides.push(side_of(b)), ..p }
    } else if named(b, "editor"@) {
        SolidParts { editor: editor_of(b), ..p }
    } else {
        SolidParts { unknown: p.unknown.push(b), ..p }
    }
}

/// The context after reading one more block of a solid with parts `p`: a
/// side is read within `side[<n>]` where `n` counts the sides so far, an
/// editor block within `editor`, and other blocks are warned of.
pub open spec fn solid_step_ctx(c: CtxView, p: SolidParts, b: BlockTree) -> CtxView {
    if named(b, "side"@) {
        at_path(side_ctx(entered(c, indexed_segment("side"@, p.sides.len())), b), c.path)
    } else if named(b, "editor"@) {
        at_path(editor_ctx(entered(c, "editor"@), b), c.path)
    } else {
        warned(c, unexpected_msg(b.name))
    }
}

/// The context after reading the blocks of a solid.
pub open spec fn solid_blocks_ctx(c: CtxView, bs: Seq<BlockTree>) -> CtxView
    decreases bs.len(),
{
    if bs.len() == 0 {
        c
    } else {
        solid_step_ctx(solid_blocks_ctx(c, bs.drop_last()), solid_blocks(bs.drop_last()), bs.last())
    }
}

/// The context after reading a `solid` block: the warning about its ID,
/// then those of its blocks.
#[verifier::opaque]
pub open spec fn solid_ctx(c: CtxView, b: BlockTree) -> CtxView {
    let (id, _) = taken(b.kvs, "id"@);
    solid_blocks_ctx(parse_or_ctx(c, "id"@, id, 0u64), b.blocks)
}

/// Reads one block of a solid into its parts.
fn solid_block_into(
    b: VmfBlock,
    sides: &mut Vec<Side>,
    editor: &mut Editor,
    unknown: &mut Vec<VmfBlock>,
    ctx: &mut ParseCtx,
)
    ensures
        solid_step(
            SolidParts { sides: sides_view(old(sides)@), editor: old(editor)@, unknown: blocks_tree(old(unknown)@) },
            b@,
        ) == (SolidParts {
            sides: sides_view(final(sides)@),
            editor: final(editor)@,
            unknown: blocks_tree(final(unknown)@),
        }),
        final(ctx)@ == solid_step_ctx(
            old(ctx)@,
            SolidParts { sides: sides_view(old(sides)@), editor: old(editor)@, unknown: blocks_tree(old(unknown)@) },
            b@,
        ),
        final(ctx)@.path == old(ctx)@.path,
{
    let ghost p = ctx@.path;
    let ghost bv = b@;
    if eq_ignore_ascii_case(b.name.as_str(), "side") {
        ctx.enter_indexed("side", sides.len());
        let s = Side::from_block(b, ctx);
        ctx.leave();
        let ghost s0 = sides@;
        sides.push(s);
        assert(sides_view(sides@) =~= sides_view(s0).push(s@));
    } else if eq_ignore_ascii_case(b.name.as_str(), "editor") {
        ctx.enter("editor");
        *editor = Editor::from_block(b, ctx);
        ctx.leave();
    } else {
        warn_unexpected(ctx, b.name.as_str());
        let ghost u0 = unknown@;
        unknown.push(b);
        assert(unknown@.drop_last() =~= u0);
    }
    assert(ctx@.path =~= p);
}

/// The solid read from a `solid` block.
#[verifier::opaque]
pub open spec fn solid_of(b: BlockTree) -> SolidView {
    let (id, k1) = taken(b.kvs, "id"@);
    let p = solid_blocks(b.blocks);
    SolidView { id: parse_or(id, 0u64), sides: p.sides, editor: p.editor, extra: (k1, p.unknown) }
}

/// The texts of sides, all at `level`.
pub open spec fn sides_text(ss: Seq<SideView>, level: nat) -> Seq<char>
    decreases ss.len(),
{
    if ss.len() == 0 {
        Seq::empty()
    } else {
        sides_text(ss.drop_last(), level) + side_text(ss.last(), level)
    }
}

/// The text of a solid as a block at `level`.
#[verifier::opaque]
pub open spec fn solid_text(s: SolidView, level: nat) -> Seq<char> {
    let inner = next_level(level);
    head_text(level, "solid"@) + pair_line(tabs(level), "id"@, dec(s.id as nat)) + pairs_text(tabs(inner), s.extra.0)
        + sides_text(s.sides, inner) + editor_text(s.editor, inner) + blocks_text(s.extra.1, inner) + tail_text(level)
}

impl Solid {
    /// Reads a `solid` block.
    pub fn from_block(block: VmfBlock, ctx: &mut ParseCtx) -> (s: Self)
        ensures
            s@ == solid_of(block@),
            final(ctx)@ == solid_ctx(old(ctx)@, block@),
            final(ctx)@.path == old(ctx)@.path,
    {
        proof {
            reveal(solid_of);
            reveal(solid_ctx);
        }
        let ghost bv = block@;
        let VmfBlock { name: _, key_values, blocks } = block;
        let mut kv = key_values;
        let id = take_parse::<u64>(&mut kv, "id", 0, ctx);
        let ghost c1 = ctx@;
        let ghost v0 = blocks@;
        let ghost bt = blocks_tree(v0);
        let mut q = into_queue(blocks);
        let n = q.len();
        let mut sides: Vec<Side> = Vec::new();
        let mut editor = Editor::new();
        let mut unknown: Vec<VmfBlock> = Vec::new();
        let mut i: usize = 0;
        assert(bt.take(0) =~= Seq::<BlockTree>::empty());
        assert(blocks_tree(unknown@) =~= Seq::<BlockTree>::empty());
        assert(sides_view(sides@) =~= Seq::<SideView>::empty());
        while i < n
            invariant
                i <= n,
                n == v0.len(),
                bt == blocks_tree(v0),
                q@ == v0.skip(i as int).reverse(),
                solid_blocks(bt.take(i as int)) == (SolidParts {
                    sides: sides_view(sides@),
                    editor: editor@,
                    unknown: blocks_tree(unknown@),
                }),
                ctx@ == solid_blocks_ctx(c1, bt.take(i as int)),
                ctx@.path == old(ctx)@.path,
            decreases n - i,
        {
            let b = next_block(&mut q, Ghost(v0), Ghost(i as int));
            assert(bt.take(i + 1).drop_last() =~= bt.take(i as int));
            solid_block_into(b, &mut sides, &mut editor, &mut unknown, ctx);
            i = i + 1;
        }
        assert(bt.take(n as int) =~= bt);
        Solid { id, sides, editor, extra: Extras { key_values: kv, blocks: unknown } }
    }
}

impl VmfSerializable for Solid {
    fn to_vmf_string(&self, indent_level: usize) -> (output: String)
        ensures
            output@ == solid_text(self@, indent_level as nat),
    {
        proof {
            reveal(solid_text);
        }
        let indent = tab_string(indent_level);
        let ind = indent.as_str();
        let mut output = String::new();
        write_head(&mut output, ind, "solid");
        assert(output@ =~= head_text(indent_level as nat, "solid"@));
        let id = u64_to_string(self.id);
        write_pair(&mut output, ind, "id", id.as_str());
        let inner = next_indent(indent_level);
        self.extra.write_key_values(&mut output, inner);
        let ghost o0 = output@;
        let ghost sv = sides_view(self.sides@);
        let mut i: usize = 0;
        assert(sv.take(0) =~= Seq::<SideView>::empty());
        while i < self.sides.len()
            invariant
                i <= self.sides@.len(),
                sv == sides_view(self.sides@),
                output@ == o0 + sides_text(sv.take(i as int), inner as nat),
            decreases self.sides.len() - i,
        {
            assert(sv.take(i + 1).drop_last() =~= sv.take(i as int));
            let t = self.sides[i].to_vmf_string(inner);
            output.append(t.as_str());
            i = i + 1;
        }
        assert(sv.take(self.sides@.len() as int) =~= sv);
        let e = self.editor.to_vmf_string(inner);
        output.append(e.as_str());
        self.extra.write_blocks(&mut output, inner);
        write_tail(&mut output, ind);
        output
    }
}

/// The content of a [`Group`].
pub struct GroupView {
    pub id: u32,
    pub editor: EditorView,
    pub extra: (Pairs, Seq<BlockTree>),
}

/// Represents a group of the world.
#[derive(Debug, PartialEq)]
pub struct Group {
    /// The unique ID of the group.
    pub id: u32,
    /// The editor data for the group.
    pub editor: Editor,
    /// Keys and blocks this struct does not model.
    pub extra: Extras,
}

impl View for Group {
    type V = GroupView;

    open spec fn view(&self) -> GroupView {
        GroupView { id: self.id, editor: self.editor@, extra: extras_view(self.extra) }
    }
}

/// The editor data (from the last `editor` block) and the other blocks of
/// a group.
pub open spec fn group_blocks(bs: Seq<BlockTree>) -> (EditorView, Seq<BlockTree>)
    decreases bs.len(),
{
    if bs.len() == 0 {
        (default_editor(), Seq::empty())
    } else {
        let (e, u) = group_blocks(bs.drop_last());
        if named(bs.last(), "editor"@) {
            (editor_of(bs.last()), u)
        } else {
            (e, u.push(bs.last()))
        }
    }
}

/// The context after reading the blocks of a group: an editor block is
/// read within `editor`, and other blocks are warned of.
pub open spec fn group_blocks_ctx(c: CtxView, bs: Seq<BlockTree>) -> CtxView
    decreases bs.len(),
{
    if bs.len() == 0 {
        c
    } else {
        let c1 = group_blocks_ctx(c, bs.drop_last());
        if named(bs.last(), "editor"@) {
            at_path(editor_ctx(entered(c1, "editor"@), bs.last()), c1.path)
        } else {
            warned(c1, unexpected_msg(bs.last().name))
        }
    }
}

/// The context after reading a `group` block: the warnings of its blocks,
/// then that about its ID.
#[verifier::opaque]
pub open spec fn group_ctx(c: CtxView, b: BlockTree) -> CtxView {
    let (id, _) = taken(b.kvs, "id"@);
    parse_or_ctx(group_blocks_ctx(c, b.blocks), "id"@, id, 0u32)
}

/// The group read from a `group` block.
#[verifier::opaque]
pub open spec fn group_of(b: BlockTree) -> GroupView {
    let (e, u) = group_blocks(b.blocks);
    let (id, k1) = taken(b.kvs, "id"@);
    GroupView { id: parse_or(id, 0u32), editor: e, extra: (k1, u) }
}

/// The text of a group as a block at `level`.
#[verifier::opaque]
pub open spec fn group_text(g: GroupView, level: nat) -> Seq<char> {
    let inner = next_level(level);
    head_text(level, "group"@) + pair_line(tabs(level), "id"@, dec(g.id as nat)) + pairs_text(tabs(inner), g.extra.0)
        + editor_text(g.editor, inner) + blocks_text(g.extra.1, inner) + tail_text(level)
}

impl Group {
    /// Reads a `group` block.
    pub fn from_block(block: VmfBlock, ctx: &mut ParseCtx) -> (g: Self)
        ensures
            g@ == group_of(block@),
            final(ctx)@ == group_ctx(old(ctx)@, block@),
            final(ctx)@.path == old(ctx)@.path,
    {
        proof {
            reveal(group_of);
            reveal(group_ctx);
        }
        let ghost c0 = ctx@;
        let ghost bv = block@;
        let VmfBlock { name: _, key_values, blocks } = block;
        let ghost v0 = blocks@;
        let ghost bt = blocks_tree(v0);
        let mut q = into_queue(blocks);
        let n = q.len();
        let mut editor = Editor::new();
        let mut unknown: Vec<VmfBlock> = Vec::new();
        let mut i: usize = 0;
        assert(bt.take(0) =~= Seq::<BlockTree>::empty());
        assert(blocks_tree(unknown@) =~= Seq::<BlockTree>::empty());
        while i < n
            invariant
                i <= n,
                n == v0.len(),
                bt == blocks_tree(v0),
                q@ == v0.skip(i as int).reverse(),
                group_blocks(bt.take(i as int)) == (editor@, blocks_tree(unknown@)),
                ctx@ == group_blocks_ctx(c0, bt.take(i as int)),
                ctx@.path == old(ctx)@.path,
            decreases n - i,
        {
            let b = next_block(&mut q, Ghost(v0), Ghost(i as int));
            assert(bt.take(i + 1).drop_last() =~= bt.take(i as int));
            let ghost p = ctx@.path;
            if eq_ignore_ascii_case(b.name.as_str(), "editor") {
                ctx.enter("editor");
                editor = Editor::from_block(b, ctx);
                ctx.leave();
            } else {
                warn_unexpected(ctx, b.name.as_str());
                let ghost u0 = unknown@;
                unknown.push(b);
                assert(unknown@.drop_last() =~= u0);
            }
            assert(ctx@.path =~= p);
            i = i + 1;
        }
        assert(bt.take(n as int) =~= bt);
        let mut kv = key_values;
        let id = take_parse::<u32>(&mut kv, "id", 0, ctx);
        Group { id, editor, extra: Extras { key_values: kv, blocks: unknown } }
    }
}

impl VmfSerializable for Group {
    fn to_vmf_string(&self, indent_level: usize) -> (output: String)
        ensures
            output@ == group_text(self@, indent_level as nat),
    {
        proof {
            reveal(group_text);
        }
        let indent = tab_string(indent_level);
        let ind = indent.as_str();
        let mut output = String::new();
        write_head(&mut output, ind, "group");
        assert(output@ =~= head_text(indent_level as nat, "group"@));
        let id = u64_to_string(self.id as u64);
        write_pair(&mut output, ind, "id", id.as_str());
        let inner = next_indent(indent_level);
        self.extra.write_key_values(&mut output, inner);
        let e = self.editor.to_vmf_string(inner);
        output.append(e.as_str());
        self.extra.write_blocks(&mut output, inner);
        write_tail(&mut output, ind);
        output
    }
}

/// The content of a [`World`].
pub struct WorldView {
    pub key_values: Pairs,
    pub solids: Seq<SolidView>,
    pub hidden: Seq<SolidView>,
    pub groups: Seq<GroupView>,
    pub extra: (Pairs, Seq<BlockTree>),
}

/// Represents the world block of a map file.
#[derive(Debug, PartialEq)]
pub struct World {
    /// The key-value pairs associated with the world.
    pub key_values: IndexMap<String, String>,
    /// The solids that make up the world geometry.
    pub solids: Vec<Solid>,
    /// The hidden solids of the world.
    pub hidden: Vec<Solid>,
    /// The groups of the world.
    pub groups: Vec<Group>,
    /// Blocks this struct does not model. Unknown keys land in `key_values`.
    pub extra: Extras,
}

/// The contents of a list of groups.
pub open spec fn groups_view(v: Seq<Group>) -> Seq<GroupView> {
    v.map_values(|g: Group| g@)
}

impl View for World {
    type V = WorldView;

    open spec fn view(&self) -> WorldView {
        WorldView {
            key_values: str_entries(self.key_values),
            solids: solids_view(self.solids@),
            hidden: solids_view(self.hidden@),
            groups: groups_view(self.groups@),
            extra: extras_view(self.extra),
        }
    }
}

/// What the blocks of the world give.
pub struct WorldParts {
    pub solids: Seq<SolidView>,
    pub hidden: Seq<SolidView>,
    pub groups: Seq<GroupView>,
    pub unknown: Seq<BlockTree>,
}

/// The solids read from blocks, in order.
pub open spec fn solids_of(bs: Seq<BlockTree>) -> Seq<SolidView> {
    bs.map_values(|b: BlockTree| solid_of(b))
}

/// The parts of the world after one more of its blocks: a `solid`, a
/// `group`, or a `hidden` block whose blocks are hidden solids.
pub open spec fn world_step(p: WorldParts, b: BlockTree) -> WorldParts {
    if named(b, "solid"@) {
        WorldParts { solids: p.solids.push(solid_of(b)), ..p }
    } else if named(b, "group"@) {
        WorldParts { groups: p.groups.push(group_of(b)), ..p }
    } else if named(b, "hidden"@) {
        WorldParts { hidden: p.hidden + solids_of(b.blocks), ..p }
    } else {
        WorldParts { unknown: p.unknown.push(b), ..p }
    }
}

pub open spec fn world_blocks(bs: Seq<BlockTree>) -> WorldParts
    decreases bs.len(),
{
    if bs.len() == 0 {
        WorldParts { solids: Seq::empty(), hidden: Seq::empty(), groups: Seq::empty(), unknown: Seq::empty() }
    } else {
        world_step(world_blocks(bs.drop_last()), bs.last())
    }
}

/// The world read from a `world` block.
#[verifier::opaque]
pub open spec fn world_of(b: BlockTree) -> WorldView {
    let p = world_blocks(b.blocks);
    WorldView {
        key_values: b.kvs,
        solids: p.solids,
        hidden: p.hidden,
        groups: p.groups,
        extra: (Seq::empty(), p.unknown),
    }
}

/// The texts of solids, all at `level`.
pub open spec fn solids_text(ss: Seq<SolidView>, level: nat) -> Seq<char>
    decreases ss.len(),
{
    if ss.len() == 0 {
        Seq::empty()
    } else {
        solids_text(ss.drop_last(), level) + solid_text(ss.last(), level)
    }
}

/// The texts of hidden solids, each in a `hidden` block one level deeper
/// than `level`.
pub open spec fn hidden_text(ss: Seq<SolidView>, level: nat) -> Seq<char>
    decreases ss.len(),
{
    if ss.len() == 0 {
        Seq::empty()
    } else {
        let ind = tabs(level) + seq!['\t'];
        hidden_text(ss.drop_last(), level) + head_lines(ind, "hidden"@) + solid_text(
            ss.last(),
            next_level(next_level(level)),
        ) + tail_line(ind)
    }
}

/// The texts of groups, all at `level`.
pub open spec fn groups_text(gs: Seq<GroupView>, level: nat) -> Seq<char>
    decreases gs.len(),
{
    if gs.len() == 0 {
        Seq::empty()
    } else {
        groups_text(gs.drop_last(), level) + group_text(gs.last(), level)
    }
}

/// The text of the world as a block at `level`.
#[verifier::opaque]
pub open spec fn world_text(w: WorldView, level: nat) -> Seq<char> {
    let inner = next_level(level);
    head_text(level, "world"@) + pairs_text(tabs(level) + seq!['\t'], w.key_values) + solids_text(w.solids, inner)
        + hidden_text(w.hidden, level) + groups_text(w.groups, inner) + pairs_text(tabs(inner), w.extra.0)
        + blocks_text(w.extra.1, inner) + tail_text(level)
}

/// The context after reading the solids `bs` of a `hidden` block, each
/// within `hidden[<n>]` where `n` counts the hidden solids, `n0` before
/// the first.
pub open spec fn hidden_solids_ctx(c: CtxView, bs: Seq<BlockTree>, n0: nat) -> CtxView
    decreases bs.len(),
{
    if bs.len() == 0 {
        c
    } else {
        let c1 = hidden_solids_ctx(c, bs.drop_last(), n0);
        at_path(solid_ctx(entered(c1, indexed_segment("hidden"@, (n0 + bs.len() - 1) as nat)), bs.last()), c1.path)
    }
}

/// The context after reading one more block of the world with parts `p`:
/// solids and groups within `solid[<n>]` and `group[<n>]`, the solids of
/// a `hidden` block, and a warning about other blocks.
pub open spec fn world_step_ctx(c: CtxView, p: WorldParts, b: BlockTree) -> CtxView {
    if named(b, "solid"@) {
        at_path(solid_ctx(entered(c, indexed_segment("solid"@, p.solids.len())), b), c.path)
    } else if named(b, "group"@) {
        at_path(group_ctx(entered(c, indexed_segment("group"@, p.groups.len())), b), c.path)
    } else if named(b, "hidden"@) {
        hidden_solids_ctx(c, b.blocks, p.hidden.len())
    } else {
        warned(c, unexpected_msg(b.name))
    }
}

/// The context after reading the blocks of the world.
pub open spec fn world_blocks_ctx(c: CtxView, bs: Seq<BlockTree>) -> CtxView
    decreases bs.len(),
{
    if bs.len() == 0 {
        c
    } else {
        world_step_ctx(world_blocks_ctx(c, bs.drop_last()), world_blocks(bs.drop_last()), bs.last())
    }
}

/// The context after reading the `world` block: the warnings of its
/// blocks, within `world`.
pub open spec fn world_ctx(c: CtxView, b: BlockTree) -> CtxView {
    at_path(world_blocks_ctx(entered(c, "world"@), b.blocks), c.path)
}

/// Reads the solids of a `hidden` block, in order, under the path segment
/// `hidden[<n>]` where `n` counts the solids read so far.
pub(crate) fn read_hidden_solids(block: VmfBlock, solids: &mut Vec<Solid>, ctx: &mut ParseCtx)
    ensures
        solids_view(final(solids)@) == solids_view(old(solids)@) + solids_of(block@.blocks),
        final(ctx)@ == hidden_solids_ctx(old(ctx)@, block@.blocks, old(solids)@.len()),
        final(ctx)@.path == old(ctx)@.path,
{
    let ghost bv = block@;
    let VmfBlock { name: _, key_values: _, blocks } = block;
    let ghost v0 = blocks@;
    let ghost bt = blocks_tree(v0);
    let ghost s0 = solids_view(solids@);
    let mut q = into_queue(blocks);
    let n = q.len();
    let mut i: usize = 0;
    assert(s0 + solids_of(bt.take(0)) =~= s0);
    while i < n
        invariant
            i <= n,
            n == v0.len(),
            bt == blocks_tree(v0),
            bt == bv.blocks,
            q@ == v0.skip(i as int).reverse(),
            solids_view(solids@) == s0 + solids_of(bt.take(i as int)),
            solids@.len() == old(solids)@.len() + i,
            ctx@ == hidden_solids_ctx(old(ctx)@, bt.take(i as int), old(solids)@.len()),
            ctx@.path == old(ctx)@.path,
        decreases n - i,
    {
        let b = next_block(&mut q, Ghost(v0), Ghost(i as int));
        let ghost p = ctx@.path;
        let ghost c1 = ctx@;
        assert(bt.take(i + 1).drop_last() =~= bt.take(i as int));
        assert(bt.take(i + 1).last() == bt[i as int]);
        ctx.enter_indexed("hidden", solids.len());
        let s = Solid::from_block(b, ctx);
        ctx.leave();
        assert(ctx@.path =~= p);
        assert(ctx@ == at_path(
            solid_ctx(entered(c1, indexed_segment("hidden"@, (old(solids)@.len() + (i + 1) - 1) as nat)), bt[i as int]),
            c1.path,
        ));
        let ghost sv0 = solids@;
        solids.push(s);
        assert(solids_view(solids@) =~= solids_view(sv0).push(s@));
        assert(solids_of(bt.take(i + 1)) =~= solids_of(bt.take(i as int)).push(solid_of(bt[i as int])));
        i = i + 1;
    }
    assert(bt.take(n as int) =~= bt);
}

/// Reads one block of the world into its parts.
fn world_block_into(
    b: VmfBlock,
    solids: &mut Vec<Solid>,
    hidden: &mut Vec<Solid>,
    groups: &mut Vec<Group>,
    unknown: &mut Vec<VmfBlock>,
    ctx: &mut ParseCtx,
)
    ensures
        world_step(
            WorldParts {
                solids: solids_view(old(solids)@),
                hidden: solids_view(old(hidden)@),
                groups: groups_view(old(groups)@),
                unknown: blocks_tree(old(unknown)@),
            },
            b@,
        ) == (WorldParts {
            solids: solids_view(final(solids)@),
            hidden: solids_view(final(hidden)@),
            groups: groups_view(final(groups)@),
            unknown: blocks_tree(final(unknown)@),
        }),
        final(ctx)@ == world_step_ctx(
            old(ctx)@,
            WorldParts {
                solids: solids_view(old(solids)@),
                hidden: solids_view(old(hidden)@),
                groups: groups_view(old(groups)@),
                unknown: blocks_tree(old(unknown)@),
            },
            b@,
        ),
        final(ctx)@.path == old(ctx)@.path,
{
    let ghost p = ctx@.path;
    if eq_ignore_ascii_case(b.name.as_str(), "solid") {
        ctx.enter_indexed("solid", solids.len());
        let s = Solid::from_block(b, ctx);
        ctx.leave();
        let ghost s0 = solids@;
        solids.push(s);
        assert(solids_view(solids@) =~= solids_view(s0).push(s@));
    } else if eq_ignore_ascii_case(b.name.as_str(), "group") {
        ctx.enter_indexed("group", groups.len());
        let g = Group::from_block(b, ctx);
        ctx.leave();
        let ghost g0 = groups@;
        groups.push(g);
        assert(groups_view(groups@) =~= groups_view(g0).push(g@));
    } else if eq_ignore_ascii_case(b.name.as_str(), "hidden") {
        read_hidden_solids(b, hidden, ctx);
    } else {
        warn_unexpected(ctx, b.name.as_str());
        let ghost u0 = unknown@;
        unknown.push(b);
        assert(unknown@.drop_last() =~= u0);
    }
    assert(ctx@.path =~= p);
}

impl World {
    /// A world with no keys, solids or groups.
    pub fn new() -> (w: Self)
        ensures
            w@ == (WorldView {
                key_values: Seq::empty(),
                solids: Seq::empty(),
                hidden: Seq::empty(),
                groups: Seq::empty(),
                extra: (Seq::empty(), Seq::empty()),
            }),
    {
        let w = World {
            key_values: crate::ordmap::smap_new(),
            solids: Vec::new(),
            hidden: Vec::new(),
            groups: Vec::new(),
            extra: Extras::new(),
        };
        assert(w@.solids =~= Seq::<SolidView>::empty());
        assert(w@.hidden =~= Seq::<SolidView>::empty());
        assert(w@.groups =~= Seq::<GroupView>::empty());
        assert(w@.extra.0 =~= Seq::<(Seq<char>, Seq<char>)>::empty());
        assert(w@.extra.1 =~= Seq::<BlockTree>::empty());
        w
    }

    /// All solids of the world, the visible ones first, then the hidden ones.
    pub fn iter_solids(&self) -> (r: Vec<&Solid>)
        ensures
            r@.len() == self.solids@.len() + self.hidden@.len(),
            forall|i: int| 0 <= i < self.solids@.len() ==> *r@[i] == self.solids@[i],
            forall|i: int| 0 <= i < self.hidden@.len() ==> *r@[self.solids@.len() + i] == self.hidden@[i],
    {
        let mut r: Vec<&Solid> = Vec::new();
        let mut i: usize = 0;
        while i < self.solids.len()
            invariant
                i <= self.solids@.len(),
                r@.len() == i,
                forall|k: int| 0 <= k < i ==> *r@[k] == self.solids@[k],
            decreases self.solids.len() - i,
        {
            r.push(&self.solids[i]);
            i = i + 1;
        }
        let mut j: usize = 0;
        while j < self.hidden.len()
            invariant
                j <= self.hidden@.len(),
                r@.len() == self.solids@.len() + j,
                forall|k: int| 0 <= k < self.solids@.len() ==> *r@[k] == self.solids@[k],
                forall|k: int| 0 <= k < j ==> *r@[self.solids@.len() + k] == self.hidden@[k],
            decreases self.hidden.len() - j,
        {
            r.push(&self.hidden[j]);
            j = j + 1;
        }
        r
    }
}

impl World {
    /// Reads the `world` block.
    pub fn from_block(block: VmfBlock, ctx: &mut ParseCtx) -> (w: Self)
        ensures
            w@ == world_of(block@),
            final(ctx)@ == world_ctx(old(ctx)@, block@),
            final(ctx)@.path == old(ctx)@.path,
    {
        proof {
            reveal(world_of);
        }
        let ghost bv = block@;
        ctx.enter("world");
        let VmfBlock { name: _, key_values, blocks } = block;
        let ghost v0 = blocks@;
        let ghost bt = blocks_tree(v0);
        let mut q = into_queue(blocks);
        let n = q.len();
        let mut solids: Vec<Solid> = Vec::new();
        let mut hidden: Vec<Solid> = Vec::new();
        let mut groups: Vec<Group> = Vec::new();
        let mut unknown: Vec<VmfBlock> = Vec::new();
        let mut i: usize = 0;
        assert(bt.take(0) =~= Seq::<BlockTree>::empty());
        assert(blocks_tree(unknown@) =~= Seq::<BlockTree>::empty());
        assert(solids_view(solids@) =~= Seq::<SolidView>::empty());
        assert(solids_view(hidden@) =~= Seq::<SolidView>::empty());
        assert(groups_view(groups@) =~= Seq::<GroupView>::empty());
        let ghost p = ctx@.path;
        let ghost cw = ctx@;
        assert(cw == entered(old(ctx)@, "world"@));
        while i < n
            invariant
                i <= n,
                n == v0.len(),
                bt == blocks_tree(v0),
                q@ == v0.skip(i as int).reverse(),
                ctx@ == world_blocks_ctx(cw, bt.take(i as int)),
                world_blocks(bt.take(i as int)) == (WorldParts {
                    solids: solids_view(solids@),
                    hidden: solids_view(hidden@),
                    groups: groups_view(groups@),
                    unknown: blocks_tree(unknown@),
                }),
                ctx@.path == p,
            decreases n - i,
        {
            let b = next_block(&mut q, Ghost(v0), Ghost(i as int));
            assert(bt.take(i + 1).drop_last() =~= bt.take(i as int));
            world_block_into(b, &mut solids, &mut hidden, &mut groups, &mut unknown, ctx);
            i = i + 1;
        }
        assert(bt.take(n as int) =~= bt);
        ctx.leave();
        assert(ctx@.path =~= old(ctx)@.path);
        let extra = Extras { key_values: crate::ordmap::smap_new(), blocks: unknown };
        World { key_values, solids, hidden, groups, extra }
    }
}

impl VmfSerializable for World {
    fn to_vmf_string(&self, indent_level: usize) -> (output: String)
        ensures
            output@ == world_text(self@, indent_level as nat),
    {
        proof {
            reveal(world_text);
        }
        let indent = tab_string(indent_level);
        let ind = indent.as_str();
        let mut output = String::new();
        write_head(&mut output, ind, "world");
        assert(output@ =~= head_text(indent_level as nat, "world"@));
        let mut deeper = indent.clone();
        crate::text::push_char(&mut deeper, '\t');
        write_pairs(&mut output, deeper.as_str(), &self.key_values);
        let inner = next_indent(indent_level);
        let ghost o0 = output@;
        let ghost sv = solids_view(self.solids@);
        let mut i: usize = 0;
        assert(sv.take(0) =~= Seq::<SolidView>::empty());
        while i < self.solids.len()
            invariant
                i <= self.solids@.len(),
                sv == solids_view(self.solids@),
                output@ == o0 + solids_text(sv.take(i as int), inner as nat),
            decreases self.solids.len() - i,
        {
            assert(sv.take(i + 1).drop_last() =~= sv.take(i as int));
            let t = self.solids[i].to_vmf_string(inner);
            output.append(t.as_str());
            i = i + 1;
        }
        assert(sv.take(self.solids@.len() as int) =~= sv);
        let ghost o1 = output@;
        let ghost hv = solids_view(self.hidden@);
        let deepest = next_indent(inner);
        let mut j: usize = 0;
        assert(hv.take(0) =~= Seq::<SolidView>::empty());
        while j < self.hidden.len()
            invariant
                j <= self.hidden@.len(),
                hv == solids_view(self.hidden@),
                deeper@ == tabs(indent_level as nat) + seq!['\t'],
                deepest == next_level(next_level(indent_level as nat)),
                output@ == o1 + hidden_text(hv.take(j as int), indent_level as nat),
            decreases self.hidden.len() - j,
        {
            assert(hv.take(j + 1).drop_last() =~= hv.take(j as int));
            write_head(&mut output, deeper.as_str(), "hidden");
            let t = self.hidden[j].to_vmf_string(deepest);
            output.append(t.as_str());
            write_tail(&mut output, deeper.as_str());
            j = j + 1;
        }
        assert(hv.take(self.hidden@.len() as int) =~= hv);
        let ghost o2 = output@;
        let ghost gv = groups_view(self.groups@);
        let mut k: usize = 0;
        assert(gv.take(0) =~= Seq::<GroupView>::empty());
        while k < self.groups.len()
            invariant
                k <= self.groups@.len(),
                gv == groups_view(self.groups@),
                output@ == o2 + groups_text(gv.take(k as int), inner as nat),
            decreases self.groups.len() - k,
        {
            assert(gv.take(k + 1).drop_last() =~= gv.take(k as int));
            let t = self.groups[k].to_vmf_string(inner);
            output.append(t.as_str());
            k = k + 1;
        }
        assert(gv.take(self.groups@.len() as int) =~= gv);
        self.extra.write_key_values(&mut output, inner);
        self.extra.write_blocks(&mut output, inner);
        write_tail(&mut output, ind);
        output
    }
}

} // verus!
