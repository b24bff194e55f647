//! The region blocks of a map file: cameras and cordons.

use vstd::prelude::*;
use crate::kv::ser::tabs;
use crate::ordmap::str_entries;
use crate::text::{dec_int, eq_ignore_ascii_case, i64_to_string};
use crate::vmf::block::{BlockTree, Extras, VmfBlock, blocks_text, blocks_tree, lemma_blocks_tree, pairs_text,
    tab_string, next_indent, next_level};
use crate::vmf::common::{VmfSerializable, extras_view};
use crate::vmf::metadata::flag_or;
use crate::vmf::parse_ctx::{CtxView, ParseCtx, indexed_segment, warned};
use crate::vmf::typed::{head_lines, head_text, into_queue, named, next_block, pair_line, tail_line, tail_text,
    write_head, write_pair, write_tail};
use crate::vmf::utils::{Pairs, To01String, bool_text, parse_or, take_bool, take_key, take_parse, take_str, taken,
    at_path, entered, parse_or_ctx, str_ctx, unexpected_msg};
use crate::vmf::world::text_or;

verus! {

broadcast use {lemma_blocks_tree, crate::vmf::utils::group_ctx_paths};

/// The content of a [`Camera`].
pub struct CameraView {
    pub position: Seq<char>,
    pub look: Seq<char>,
    pub extra: (Pairs, Seq<BlockTree>),
}

/// A camera of the editor.
#[derive(Debug, PartialEq)]
pub struct Camera {
    pub position: String,
    pub look: String,
    /// Keys and blocks this struct does not model.
    pub extra: Extras,
}

impl View for Camera {
    type V = CameraView;

    open spec fn view(&self) -> CameraView {
        CameraView { position: self.position@, look: self.look@, extra: extras_view(self.extra) }
    }
}

/// The camera read from a `camera` block.
pub open spec fn camera_of(b: BlockTree) -> CameraView {
    let (pos, k1) = taken(b.kvs, "position"@);
    let (look, k2) = taken(k1, "look"@);
    CameraView { position: text_or(pos, "0 0 0"@), look: text_or(look, "0 0 0"@), extra: (k2, b.blocks) }
}

/// The context after reading a `camera` block: the warnings about its
/// position and look where missing.
pub open spec fn camera_ctx(c: CtxView, b: BlockTree) -> CtxView {
    let (pos, k1) = taken(b.kvs, "position"@);
    let (look, _) = taken(k1, "look"@);
    str_ctx(str_ctx(c, "position"@, pos, "0 0 0"@), "look"@, look, "0 0 0"@)
}

impl Camera {
    /// Reads a `camera` block.
    pub fn from_block(block: VmfBlock, ctx: &mut ParseCtx) -> (c: Self)
        ensures
            c@ == camera_of(block@),
            final(ctx)@ == camera_ctx(old(ctx)@, block@),
            final(ctx)@.path == old(ctx)@.path,
    {
        let VmfBlock { name: _, key_values, blocks } = block;
        let mut kv = key_values;
        let position = take_str(&mut kv, "position", "0 0 0", ctx);
        let look = take_str(&mut kv, "look", "0 0 0", ctx);
        Camera { position, look, extra: Extras { key_values: kv, blocks } }
    }
}

/// The content of [`Cameras`].
pub struct CamerasView {
    pub active: i8,
    pub cams: Seq<CameraView>,
    pub extra: (Pairs, Seq<BlockTree>),
}

/// The cameras of the editor.
#[derive(Debug, PartialEq)]
pub struct Cameras {
    /// The index of the active camera, -1 for none.
    pub active: i8,
    pub cams: Vec<Camera>,
    /// Keys and blocks this struct does not model.
    pub extra: Extras,
}

/// The contents of a list of cameras.
pub open spec fn cams_view(v: Seq<Camera>) -> Seq<CameraView> {
    v.map_values(|c: Camera| c@)
}

impl View for Cameras {
    type V = CamerasView;

    open spec fn view(&self) -> CamerasView {
        CamerasView { active: self.active, cams: cams_view(self.cams@), extra: extras_view(self.extra) }
    }
}

/// The cameras and the other blocks among `bs`.
pub open spec fn cam_blocks(bs: Seq<BlockTree>) -> (Seq<CameraView>, Seq<BlockTree>)
    decreases bs.len(),
{
    if bs.len() == 0 {
        (Seq::empty(), Seq::empty())
    } else {
        let (c, u) = cam_blocks(bs.drop_last());
        if named(bs.last(), "camera"@) {
            (c.push(camera_of(bs.last())), u)
        } else {
            (c, u.push(bs.last()))
        }
    }
}

/// The cameras read from the `cameras` block (no active camera, -1, where
/// missing).
pub open spec fn cameras_of(b: BlockTree) -> CamerasView {
    let (cams, unknown) = cam_blocks(b.blocks);
    let (active, k1) = taken(b.kvs, "activecamera"@);
    CamerasView { active: parse_or(active, -1i8), cams, extra: (k1, unknown) }
}

/// The context after reading the blocks of the `cameras` block: the `n`-th
/// block, a camera, is read within `camera[<n>]`; other blocks are warned
/// of.
pub open spec fn cam_blocks_ctx(c: CtxView, bs: Seq<BlockTree>) -> CtxView
    decreases bs.len(),
{
    if bs.len() == 0 {
        c
    } else {
        let c1 = cam_blocks_ctx(c, bs.drop_last());
        if named(bs.last(), "camera"@) {
            at_path(camera_ctx(entered(c1, indexed_segment("camera"@, (bs.len() - 1) as nat)), bs.last()), c1.path)
        } else {
            warned(c1, unexpected_msg(bs.last().name))
        }
    }
}

/// The context after reading the `cameras` block, within `cameras`: the
/// warnings of its blocks, then that about the active camera.
pub open spec fn cameras_ctx(c: CtxView, b: BlockTree) -> CtxView {
    let (active, _) = taken(b.kvs, "activecamera"@);
    at_path(parse_or_ctx(cam_blocks_ctx(entered(c, "cameras"@), b.blocks), "activecamera"@, active, -1i8), c.path)
}

/// The lines of the cameras, each a `camera` block one tab deeper than
/// `level`.
pub open spec fn cam_lines(cs: Seq<CameraView>, level: nat) -> Seq<char>
    decreases cs.len(),
{
    if cs.len() == 0 {
        Seq::empty()
    } else {
        let ind = tabs(level) + seq!['\t'];
        let l2 = next_level(next_level(level));
        let c = cs.last();
        cam_lines(cs.drop_last(), level) + head_lines(ind, "camera"@) + pair_line(ind, "position"@, c.position)
            + pair_line(ind, "look"@, c.look) + pairs_text(tabs(l2), c.extra.0) + blocks_text(c.extra.1, l2)
            + tail_line(ind)
    }
}

/// The text of the cameras block at `level`.
#[verifier::opaque]
pub open spec fn cameras_text(c: CamerasView, level: nat) -> Seq<char> {
    head_text(level, "cameras"@) + pair_line(tabs(level), "activecamera"@, dec_int(c.active as int)) + pairs_text(
        tabs(next_level(level)),
        c.extra.0,
    ) + cam_lines(c.cams, level) + blocks_text(c.extra.1, next_level(level)) + tail_text(level)
}

impl Cameras {
    /// No cameras; none active.
    pub fn new() -> (c: Self)
        ensures
            c@ == (CamerasView { active: 0, cams: Seq::empty(), extra: (Seq::empty(), Seq::empty()) }),
    {
        let c = Cameras { active: 0, cams: Vec::new(), extra: Extras::new() };
        assert(c@.cams =~= Seq::<CameraView>::empty());
        assert(c@.extra.0 =~= Seq::<(Seq<char>, Seq<char>)>::empty());
        assert(c@.extra.1 =~= Seq::<BlockTree>::empty());
        c
    }

    /// Reads the `cameras` block.
    pub fn from_block(block: VmfBlock, ctx: &mut ParseCtx) -> (c: Self)
        ensures
            c@ == cameras_of(block@),
            final(ctx)@ == cameras_ctx(old(ctx)@, block@),
            final(ctx)@.path == old(ctx)@.path,
    {
        ctx.enter("cameras");
        let ghost ce = ctx@;
        let ghost bv = block@;
        let VmfBlock { name: _, key_values, blocks } = block;
        let ghost v0 = blocks@;
        let ghost bt = blocks_tree(v0);
        let mut q = into_queue(blocks);
        let n = q.len();
        let mut cams: Vec<Camera> = Vec::new();
        let mut unknown: Vec<VmfBlock> = Vec::new();
        let mut i: usize = 0;
        assert(bt.take(0) =~= Seq::<BlockTree>::empty());
        assert(blocks_tree(unknown@) =~= Seq::<BlockTree>::empty());
        assert(cams_view(cams@) =~= Seq::<CameraView>::empty());
        let ghost p = ctx@.path;
        while i < n
            invariant
                i <= n,
                n == v0.len(),
                bt == blocks_tree(v0),
                q@ == v0.skip(i as int).reverse(),
                cam_blocks(bt.take(i as int)) == (cams_view(cams@), blocks_tree(unknown@)),
                ctx@ == cam_blocks_ctx(ce, bt.take(i as int)),
                ctx@.path == p,
            decreases n - i,
        {
            let b = next_block(&mut q, Ghost(v0), Ghost(i as int));
            assert(bt.take(i + 1).drop_last() =~= bt.take(i as int));
            if eq_ignore_ascii_case(b.name.as_str(), "camera") {
                ctx.enter_indexed("camera", i);
                let c = Camera::from_block(b, ctx);
                ctx.leave();
                assert(ctx@.path =~= p);
                let ghost c0 = cams@;
                cams.push(c);
                assert(cams_view(cams@) =~= cams_view(c0).push(c@));
            } else {
                let mut m = String::new();
                m.append("unexpected block '");
                m.append(b.name.as_str());
                m.append("', kept as-is");
                assert(m@ =~= unexpected_msg(b@.name));
                ctx.warn(m.as_str());
                let ghost u0 = unknown@;
                unknown.push(b);
                assert(unknown@.drop_last() =~= u0);
            }
            i = i + 1;
        }
        assert(bt.take(n as int) =~= bt);
        let mut kv = key_values;
        let active = take_parse::<i8>(&mut kv, "activecamera", -1, ctx);
        ctx.leave();
        assert(ctx@.path =~= old(ctx)@.path);
        Cameras { active, cams, extra: Extras { key_values: kv, blocks: unknown } }
    }
}

impl VmfSerializable for Cameras {
    #[verifier::rlimit(40)]
    fn to_vmf_string(&self, indent_level: usize) -> (output: String)
        ensures
            output@ == cameras_text(self@, indent_level as nat),
    {
        proof {
            reveal(cameras_text);
        }
        let indent = tab_string(indent_level);
        let ind = indent.as_str();
        let mut output = String::new();
        write_head(&mut output, ind, "cameras");
        assert(output@ =~= head_text(indent_level as nat, "cameras"@));
        let a = i64_to_string(self.active as i64);
        write_pair(&mut output, ind, "activecamera", a.as_str());
        let inner = next_indent(indent_level);
        self.extra.write_key_values(&mut output, inner);
        let mut deeper = indent.clone();
        crate::text::push_char(&mut deeper, '\t');
        assert(deeper@ =~= tabs(indent_level as nat) + seq!['\t']);
        let l2 = next_indent(inner);
        let ghost o0 = output@;
        let ghost cv = cams_view(self.cams@);
        let mut i: usize = 0;
        assert(cv.take(0) =~= Seq::<CameraView>::empty());
        while i < self.cams.len()
            invariant
                i <= self.cams@.len(),
                cv == cams_view(self.cams@),
                deeper@ == tabs(indent_level as nat) + seq!['\t'],
                l2 == next_level(next_level(indent_level as nat)),
                output@ == o0 + cam_lines(cv.take(i as int), indent_level as nat),
            decreases self.cams.len() - i,
        {
            assert(cv.take(i + 1).drop_last() =~= cv.take(i as int));
            let c = &self.cams[i];
            write_head(&mut output, deeper.as_str(), "camera");
            write_pair(&mut output, deeper.as_str(), "position", c.position.as_str());
            write_pair(&mut output, deeper.as_str(), "look", c.look.as_str());
            c.extra.write_key_values(&mut output, l2);
            c.extra.write_blocks(&mut output, l2);
            write_tail(&mut output, deeper.as_str());
            i = i + 1;
        }
        assert(cv.take(self.cams@.len() as int) =~= cv);
        self.extra.write_blocks(&mut output, inner);
        write_tail(&mut output, ind);
        output
    }
}

/// The content of a [`Cordon`].
pub struct CordonView {
    pub name: Seq<char>,
    pub active: bool,
    pub min: Seq<char>,
    pub max: Seq<char>,
    pub extra: (Pairs, Seq<BlockTree>),
}

/// A cordon: a named box that limits what the compiler sees.
#[derive(Debug, PartialEq)]
pub struct Cordon {
    pub name: String,
    pub active: bool,
    pub min: String,
    pub max: String,
    /// Keys and blocks this struct does not model.
    pub extra: Extras,
}

impl View for Cordon {
    type V = CordonView;

    open spec fn view(&self) -> CordonView {
        CordonView {
            name: self.name@,
            active: self.active,
            min: self.min@,
            max: self.max@,
            extra: extras_view(self.extra),
        }
    }
}

/// The blocks without the empty `box` blocks.
pub open spec fn kept_blocks(bs: Seq<BlockTree>) -> Seq<BlockTree>
    decreases bs.len(),
{
    if bs.len() == 0 {
        Seq::empty()
    } else {
        let k = kept_blocks(bs.drop_last());
        if named(bs.last(), "box"@) && bs.last().kvs.len() == 0 {
            k
        } else {
            k.push(bs.last())
        }
    }
}

/// The cordon read from a `cordon` block. Its bounds are the `mins` and
/// `maxs` of its first block where that has both (they are taken out of it
/// either way); else the `mins` and `maxs` of the cordon itself. Empty
/// `box` blocks are dropped.
#[verifier::opaque]
pub open spec fn cordon_of(b: BlockTree) -> CordonView {
    let (from_box, bs1) = if b.blocks.len() > 0 {
        let f = b.blocks[0];
        let (mn, k1) = taken(f.kvs, "mins"@);
        let (mx, k2) = taken(k1, "maxs"@);
        (
            match (mn, mx) {
                (Some(a), Some(c)) => Some((a, c)),
                _ => None,
            },
            b.blocks.update(0, BlockTree { kvs: k2, ..f }),
        )
    } else {
        (None, b.blocks)
    };
    let (min, max, kv) = match from_box {
        Some((a, c)) => (a, c, b.kvs),
        None => {
            let (mn, k1) = taken(b.kvs, "mins"@);
            let (mx, k2) = taken(k1, "maxs"@);
            (text_or(mn, "0 0 0"@), text_or(mx, "0 0 0"@), k2)
        },
    };
    let (name, k3) = taken(kv, "name"@);
    let (active, k4) = taken(k3, "active"@);
    CordonView {
        name: text_or(name, "cordon"@),
        active: flag_or(active, false),
        min,
        max,
        extra: (k4, kept_blocks(bs1)),
    }
}

/// The text of a cordon as a block at `level`.
#[verifier::opaque]
pub open spec fn cordon_text(c: CordonView, level: nat) -> Seq<char> {
    let ind = tabs(level) + seq!['\t'];
    head_text(level, "cordon"@) + pair_line(tabs(level), "name"@, c.name) + pair_line(
        tabs(level),
        "active"@,
        bool_text(c.active),
    ) + pairs_text(tabs(next_level(level)), c.extra.0) + head_lines(ind, "box"@) + pair_line(ind, "mins"@, c.min)
        + pair_line(ind, "maxs"@, c.max) + tail_line(ind) + blocks_text(c.extra.1, next_level(level)) + tail_text(
        level,
    )
}

/// The context after reading a `cordon` block: where its first block
/// gives no bounds, the warnings about the bounds missing among its pairs;
/// then those about its name and active flag.
#[verifier::opaque]
pub open spec fn cordon_ctx(c: CtxView, b: BlockTree) -> CtxView {
    let from_box = if b.blocks.len() > 0 {
        let f = b.blocks[0];
        let (mn, k1) = taken(f.kvs, "mins"@);
        let (mx, _) = taken(k1, "maxs"@);
        mn is Some && mx is Some
    } else {
        false
    };
    let (c1, kv) = if from_box {
        (c, b.kvs)
    } else {
        let (mn, k1) = taken(b.kvs, "mins"@);
        let (mx, k2) = taken(k1, "maxs"@);
        (str_ctx(str_ctx(c, "mins"@, mn, "0 0 0"@), "maxs"@, mx, "0 0 0"@), k2)
    };
    let (name, k3) = taken(kv, "name"@);
    let (active, _) = taken(k3, "active"@);
    str_ctx(str_ctx(c1, "name"@, name, "cordon"@), "active"@, active, bool_text(false))
}

/// Drops the empty `box` blocks.
fn keep_blocks(blocks: Vec<VmfBlock>) -> (r: Vec<VmfBlock>)
    ensures
        blocks_tree(r@) == kept_blocks(blocks_tree(blocks@)),
{
    let ghost v0 = blocks@;
    let ghost bt = blocks_tree(v0);
    let mut q = into_queue(blocks);
    let n = q.len();
    let mut out: Vec<VmfBlock> = Vec::new();
    let mut i: usize = 0;
    assert(bt.take(0) =~= Seq::<BlockTree>::empty());
    assert(blocks_tree(out@) =~= Seq::<BlockTree>::empty());
    while i < n
        invariant
            i <= n,
            n == v0.len(),
            bt == blocks_tree(v0),
            q@ == v0.skip(i as int).reverse(),
            blocks_tree(out@) == kept_blocks(bt.take(i as int)),
        decreases n - i,
    {
        let b = next_block(&mut q, Ghost(v0), Ghost(i as int));
        assert(bt.take(i + 1).drop_last() =~= bt.take(i as int));
        let empty_box = eq_ignore_ascii_case(b.name.as_str(), "box") && crate::ordmap::smap_len(&b.key_values) == 0;
        if !empty_box {
            let ghost o0 = out@;
            out.push(b);
            assert(out@.drop_last() =~= o0);
        }
        i = i + 1;
    }
    assert(bt.take(n as int) =~= bt);
    out
}

impl Cordon {
    /// Reads a `cordon` block.
    pub fn from_block(block: VmfBlock, ctx: &mut ParseCtx) -> (c: Self)
        ensures
            c@ == cordon_of(block@),
            final(ctx)@ == cordon_ctx(old(ctx)@, block@),
            final(ctx)@.path == old(ctx)@.path,
    {
        proof {
            reveal(cordon_of);
            reveal(cordon_ctx);
        }
        let ghost bv = block@;
        let VmfBlock { name: _, key_values, blocks } = block;
        let mut blocks = blocks;
        let from_box: Option<(String, String)> = if blocks.len() > 0 {
            let ghost b0 = blocks@;
            let mut first = blocks.remove(0);
            let mn = take_key(&mut first.key_values, "mins");
            let mx = take_key(&mut first.key_values, "maxs");
            let ghost fv = first@;
            let ghost fb = first;
            blocks.insert(0, first);
            assert(blocks@ =~= b0.update(0, fb));
            assert(blocks_tree(blocks@) =~= blocks_tree(b0).update(0, fv));
            match (mn, mx) {
                (Some(a), Some(c)) => Some((a, c)),
                _ => None,
            }
        } else {
            None
        };
        let blocks = keep_blocks(blocks);
        let mut kv = key_values;
        let (min, max) = match from_box {
            Some(pair) => pair,
            None => {
                let a = take_str(&mut kv, "mins", "0 0 0", ctx);
                let c = take_str(&mut kv, "maxs", "0 0 0", ctx);
                (a, c)
            },
        };
        let name = take_str(&mut kv, "name", "cordon", ctx);
        let active = take_bool(&mut kv, "active", false, ctx);
        Cordon { name, active, min, max, extra: Extras { key_values: kv, blocks } }
    }
}

impl VmfSerializable for Cordon {
    fn to_vmf_string(&self, indent_level: usize) -> (output: String)
        ensures
            output@ == cordon_text(self@, indent_level as nat),
    {
        proof {
            reveal(cordon_text);
        }
        let indent = tab_string(indent_level);
        let ind = indent.as_str();
        let mut output = String::new();
        write_head(&mut output, ind, "cordon");
        assert(output@ =~= head_text(indent_level as nat, "cordon"@));
        write_pair(&mut output, ind, "name", self.name.as_str());
        let a = self.active.to_01_string();
        write_pair(&mut output, ind, "active", a.as_str());
        let inner = next_indent(indent_level);
        self.extra.write_key_values(&mut output, inner);
        let mut deeper = indent.clone();
        crate::text::push_char(&mut deeper, '\t');
        assert(deeper@ =~= tabs(indent_level as nat) + seq!['\t']);
        write_head(&mut output, deeper.as_str(), "box");
        write_pair(&mut output, deeper.as_str(), "mins", self.min.as_str());
        write_pair(&mut output, deeper.as_str(), "maxs", self.max.as_str());
        write_tail(&mut output, deeper.as_str());
        self.extra.write_blocks(&mut output, inner);
        write_tail(&mut output, ind);
        output
    }
}

/// The content of [`Cordons`].
pub struct CordonsView {
    pub active: i8,
    pub cordons: Seq<CordonView>,
    pub extra: (Pairs, Seq<BlockTree>),
}

/// The cordons of a map file.
#[derive(Debug, PartialEq)]
pub struct Cordons {
    pub active: i8,
    pub cordons: Vec<Cordon>,
    /// Keys and blocks this struct does not model.
    pub extra: Extras,
}

/// The contents of a list of cordons.
pub open spec fn cordons_view(v: Seq<Cordon>) -> Seq<CordonView> {
    v.map_values(|c: Cordon| c@)
}

impl View for Cordons {
    type V = CordonsView;

    open spec fn view(&self) -> CordonsView {
        CordonsView { active: self.active, cordons: cordons_view(self.cordons@), extra: extras_view(self.extra) }
    }
}

/// The cordons and the other blocks among `bs`.
pub open spec fn cordon_blocks(bs: Seq<BlockTree>) -> (Seq<CordonView>, Seq<BlockTree>)
    decreases bs.len(),
{
    if bs.len() == 0 {
        (Seq::empty(), Seq::empty())
    } else {
        let (c, u) = cordon_blocks(bs.drop_last());
        if named(bs.last(), "cordon"@) {
            (c.push(cordon_of(bs.last())), u)
        } else {
            (c, u.push(bs.last()))
        }
    }
}

/// The context after reading the blocks of the `cordons` block: the
/// `n`-th block, a cordon, is read within `cordon[<n>]`; other blocks are
/// warned of.
pub open spec fn cordon_blocks_ctx(c: CtxView, bs: Seq<BlockTree>) -> CtxView
    decreases bs.len(),
{
    if bs.len() == 0 {
        c
    } else {
        let c1 = cordon_blocks_ctx(c, bs.drop_last());
        if named(bs.last(), "cordon"@) {
            at_path(cordon_ctx(entered(c1, indexed_segment("cordon"@, (bs.len() - 1) as nat)), bs.last()), c1.path)
        } else {
            warned(c1, unexpected_msg(bs.last().name))
        }
    }
}

/// The context after reading the `cordons` block, within `cordons`: the
/// warnings of its blocks, then that about the active flag.
pub open spec fn cordons_ctx(c: CtxView, b: BlockTree) -> CtxView {
    let (active, _) = taken(b.kvs, "active"@);
    at_path(parse_or_ctx(cordon_blocks_ctx(entered(c, "cordons"@), b.blocks), "active"@, active, 0i8), c.path)
}

/// The cordons read from the `cordons` block.
pub open spec fn cordons_of(b: BlockTree) -> CordonsView {
    let (cs, unknown) = cordon_blocks(b.blocks);
    let (active, k1) = taken(b.kvs, "active"@);
    CordonsView { active: parse_or(active, 0i8), cordons: cs, extra: (k1, unknown) }
}

/// The texts of cordons, all at `level`.
pub open spec fn cordons_text(cs: Seq<CordonView>, level: nat) -> Seq<char>
    decreases cs.len(),
{
    if cs.len() == 0 {
        Seq::empty()
    } else {
        cordons_text(cs.drop_last(), level) + cordon_text(cs.last(), level)
    }
}

/// The text of the cordons block at `level`.
#[verifier::opaque]
pub open spec fn cordons_block_text(c: CordonsView, level: nat) -> Seq<char> {
    head_text(level, "cordons"@) + pair_line(tabs(level), "active"@, dec_int(c.active as int)) + pairs_text(
        tabs(next_level(level)),
        c.extra.0,
    ) + cordons_text(c.cordons, next_level(level)) + blocks_text(c.extra.1, next_level(level)) + tail_text(level)
}

impl Cordons {
    /// No cordons.
    pub fn new() -> (c: Self)
        ensures
            c@ == (CordonsView { active: 0, cordons: Seq::empty(), extra: (Seq::empty(), Seq::empty()) }),
    {
        let c = Cordons { active: 0, cordons: Vec::new(), extra: Extras::new() };
        assert(c@.cordons =~= Seq::<CordonView>::empty());
        assert(c@.extra.0 =~= Seq::<(Seq<char>, Seq<char>)>::empty());
        assert(c@.extra.1 =~= Seq::<BlockTree>::empty());
        c
    }

    /// Reads the `cordons` block.
    pub fn from_block(block: VmfBlock, ctx: &mut ParseCtx) -> (c: Self)
        ensures
            c@ == cordons_of(block@),
            final(ctx)@ == cordons_ctx(old(ctx)@, block@),
            final(ctx)@.path == old(ctx)@.path,
    {
        ctx.enter("cordons");
        let ghost ce = ctx@;
        let ghost bv = block@;
        let VmfBlock { name: _, key_values, blocks } = block;
        let ghost v0 = blocks@;
        let ghost bt = blocks_tree(v0);
        let mut q = into_queue(blocks);
        let n = q.len();
        let mut cordons: Vec<Cordon> = Vec::new();
        let mut unknown: Vec<VmfBlock> = Vec::new();
        let mut i: usize = 0;
        assert(bt.take(0) =~= Seq::<BlockTree>::empty());
        assert(blocks_tree(unknown@) =~= Seq::<BlockTree>::empty());
        assert(cordons_view(cordons@) =~= Seq::<CordonView>::empty());
        let ghost p = ctx@.path;
        while i < n
            invariant
                i <= n,
                n == v0.len(),
                bt == blocks_tree(v0),
                q@ == v0.skip(i as int).reverse(),
                cordon_blocks(bt.take(i as int)) == (cordons_view(cordons@), blocks_tree(unknown@)),
                ctx@ == cordon_blocks_ctx(ce, bt.take(i as int)),
                ctx@.path == p,
            decreases n - i,
        {
            let b = next_block(&mut q, Ghost(v0), Ghost(i as int));
            assert(bt.take(i + 1).drop_last() =~= bt.take(i as int));
            if eq_ignore_ascii_case(b.name.as_str(), "cordon") {
                ctx.enter_indexed("cordon", i);
                let c = Cordon::from_block(b, ctx);
                ctx.leave();
                assert(ctx@.path =~= p);
                let ghost c0 = cordons@;
                cordons.push(c);
                assert(cordons_view(cordons@) =~= cordons_view(c0).push(c@));
            } else {
                let mut m = String::new();
                m.append("unexpected block '");
                m.append(b.name.as_str());
                m.append("', kept as-is");
                assert(m@ =~= unexpected_msg(b@.name));
                ctx.warn(m.as_str());
                let ghost u0 = unknown@;
                unknown.push(b);
                assert(unknown@.drop_last() =~= u0);
            }
            i = i + 1;
        }
        assert(bt.take(n as int) =~= bt);
        let mut kv = key_values;
        let active = take_parse::<i8>(&mut kv, "active", 0, ctx);
        ctx.leave();
        assert(ctx@.path =~= old(ctx)@.path);
        Cordons { active, cordons, extra: Extras { key_values: kv, blocks: unknown } }
    }
}

impl VmfSerializable for Cordons {
    fn to_vmf_string(&self, indent_level: usize) -> (output: String)
        ensures
            output@ == cordons_block_text(self@, indent_level as nat),
    {
        proof {
            reveal(cordons_block_text);
        }
        let indent = tab_string(indent_level);
        let ind = indent.as_str();
        let mut output = String::new();
        write_head(&mut output, ind, "cordons");
        assert(output@ =~= head_text(indent_level as nat, "cordons"@));
        let a = i64_to_string(self.active as i64);
        write_pair(&mut output, ind, "active", a.as_str());
        let inner = next_indent(indent_level);
        self.extra.write_key_values(&mut output, inner);
        let ghost o0 = output@;
        let ghost cv = cordons_view(self.cordons@);
        let mut i: usize = 0;
        assert(cv.take(0) =~= Seq::<CordonView>::empty());
        while i < self.cordons.len()
            invariant
                i <= self.cordons@.len(),
                cv == cordons_view(self.cordons@),
                output@ == o0 + cordons_text(cv.take(i as int), inner as nat),
            decreases self.cordons.len() - i,
        {
            assert(cv.take(i + 1).drop_last() =~= cv.take(i as int));
            let t = self.cordons[i].to_vmf_string(inner);
            output.append(t.as_str());
            i = i + 1;
        }
        assert(cv.take(self.cordons@.len() as int) =~= cv);
        self.extra.write_blocks(&mut output, inner);
        write_tail(&mut output, ind);
        output
    }
}

} // verus!
