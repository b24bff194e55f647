//! A whole map file: reading it from text, and writing it back.

use vstd::prelude::*;
use crate::kv::de::{Deserializer, fail_is};
use crate::kv::error::Error;
use crate::kv::grammar::{KvMap, parse_kv};
use crate::kv::value::{Entry, KvTree, Value, entries_tree, values_tree, lemma_entries_tree, lemma_values_tree};
use crate::text::eq_ignore_ascii_case;
use crate::vmf::block::{BlockTree, VmfBlock, block_text, blocks_tree, lemma_blocks_tree};
use crate::vmf::common::VmfSerializable;
use crate::vmf::entities::{Entities, Entity, EntityView, derefs, entity_ctx, entity_of, entity_text};
use crate::vmf::metadata::{VersionInfo, VersionInfoView, ViewSettings, ViewSettingsView, versioninfo_ctx,
    versioninfo_of, versioninfo_text, viewsettings_ctx, viewsettings_of, viewsettings_text};
use crate::vmf::parse_ctx::{CtxView, ParseCtx, indexed_segment, texts, warned};
use crate::vmf::utils::{at_path, entered};
use crate::vmf::parser::{tree_block, value_to_vmf_block};
use crate::vmf::regions::{Cameras, CamerasView, Cordon, Cordons, CordonsView, cameras_ctx, cameras_of, cameras_text,
    cordon_ctx, cordon_of, cordons_block_text, cordons_ctx, cordons_of};
use crate::vmf::typed::{into_queue, named, next_block};
use crate::vmf::visgroups::{VisGroupView, VisGroups, VisGroupsView, collected, find_id, visgroups_block_text,
    visgroups_ctx, visgroups_of};
use crate::vmf::world::{Solid, World, WorldView, world_ctx, world_of, world_text};

verus! {

broadcast use {lemma_entries_tree, lemma_values_tree, lemma_blocks_tree};

/// What can go wrong while reading a map file.
#[derive(Debug, PartialEq)]
pub enum VmfError {
    /// The text is no KeyValues document.
    Parse(Error),
}

/// A map file.
#[derive(Debug, PartialEq)]
pub struct VmfFile {
    /// The path the file was read from, if any.
    pub path: Option<String>,
    pub versioninfo: VersionInfo,
    pub visgroups: VisGroups,
    pub viewsettings: ViewSettings,
    pub world: World,
    pub entities: Entities,
    pub hiddens: Entities,
    pub cameras: Cameras,
    pub cordons: Cordons,
    /// Root blocks of unknown kinds, kept as they are.
    pub extra_blocks: Vec<VmfBlock>,
    /// Problems met while reading, with their block paths.
    pub warnings: Vec<String>,
    /// Number of problems beyond those kept in `warnings`.
    pub suppressed_warnings: usize,
}

/// The parts of a map file.
pub struct VmfParts {
    pub versioninfo: VersionInfoView,
    pub visgroups: VisGroupsView,
    pub viewsettings: ViewSettingsView,
    pub world: WorldView,
    pub entities: Seq<EntityView>,
    pub hiddens: Seq<EntityView>,
    pub cameras: CamerasView,
    pub cordons: CordonsView,
    pub extra: Seq<BlockTree>,
}

/// The contents of a list of entities.
pub open spec fn entities_view(v: Seq<Entity>) -> Seq<EntityView> {
    v.map_values(|e: Entity| e@)
}

/// The parts of a map file's value.
pub open spec fn file_parts(f: VmfFile) -> VmfParts {
    VmfParts {
        versioninfo: f.versioninfo@,
        visgroups: f.visgroups@,
        viewsettings: f.viewsettings@,
        world: f.world@,
        entities: entities_view(f.entities.0@),
        hiddens: entities_view(f.hiddens.0@),
        cameras: f.cameras@,
        cordons: f.cordons@,
        extra: blocks_tree(f.extra_blocks@),
    }
}

/// The parts of a map file with nothing read.
pub open spec fn empty_parts() -> VmfParts {
    VmfParts {
        versioninfo: VersionInfoView {
            editor_version: 0,
            editor_build: 0,
            map_version: 0,
            format_version: 0,
            prefab: false,
            extra: (Seq::empty(), Seq::empty()),
        },
        visgroups: VisGroupsView { groups: Seq::empty(), extra: (Seq::empty(), Seq::empty()) },
        viewsettings: ViewSettingsView {
            snap_to_grid: true,
            show_grid: true,
            show_logical_grid: false,
            grid_spacing: 8,
            show_3d_grid: false,
            extra: (Seq::empty(), Seq::empty()),
        },
        world: WorldView {
            key_values: Seq::empty(),
            solids: Seq::empty(),
            hidden: Seq::empty(),
            groups: Seq::empty(),
            extra: (Seq::empty(), Seq::empty()),
        },
        entities: Seq::empty(),
        hiddens: Seq::empty(),
        cameras: CamerasView { active: 0, cams: Seq::empty(), extra: (Seq::empty(), Seq::empty()) },
        cordons: CordonsView { active: 0, cordons: Seq::empty(), extra: (Seq::empty(), Seq::empty()) },
        extra: Seq::empty(),
    }
}

/// The hidden entities of a `hidden` block.
pub open spec fn hidden_entities(bs: Seq<BlockTree>) -> Seq<EntityView> {
    bs.map_values(|b: BlockTree| EntityView { is_hidden: true, ..entity_of(b) })
}

/// The parts after one more root block, by its name without regard to
/// ASCII case: the metadata, world, camera and cordon blocks set their part
/// (the last one counts), entities are added in order, the entities of a
/// `hidden` block are added as hidden, an old-style `cordon` block adds a
/// cordon, and other blocks are kept.
pub open spec fn vmf_step(p: VmfParts, b: BlockTree) -> VmfParts {
    if named(b, "versioninfo"@) {
        VmfParts { versioninfo: versioninfo_of(b), ..p }
    } else if named(b, "visgroups"@) {
        VmfParts { visgroups: visgroups_of(b), ..p }
    } else if named(b, "viewsettings"@) {
        VmfParts { viewsettings: viewsettings_of(b), ..p }
    } else if named(b, "world"@) {
        VmfParts { world: world_of(b), ..p }
    } else if named(b, "entity"@) {
        VmfParts { entities: p.entities.push(entity_of(b)), ..p }
    } else if named(b, "hidden"@) {
        VmfParts { hiddens: p.hiddens + hidden_entities(b.blocks), ..p }
    } else if named(b, "cameras"@) {
        VmfParts { cameras: cameras_of(b), ..p }
    } else if named(b, "cordons"@) {
        VmfParts { cordons: cordons_of(b), ..p }
    } else if named(b, "cordon"@) {
        VmfParts { cordons: CordonsView { cordons: p.cordons.cordons.push(cordon_of(b)), ..p.cordons }, ..p }
    } else {
        VmfParts { extra: p.extra.push(b), ..p }
    }
}

/// The parts after the root blocks `bs`, in order.
pub open spec fn vmf_fold(bs: Seq<BlockTree>) -> VmfParts
    decreases bs.len(),
{
    if bs.len() == 0 {
        empty_parts()
    } else {
        vmf_step(vmf_fold(bs.drop_last()), bs.last())
    }
}

/// The blocks of the values written under `k`.
pub open spec fn entry_blocks(k: Seq<char>, vs: Seq<KvTree>) -> Seq<BlockTree> {
    vs.map_values(|v: KvTree| tree_block(k, v))
}

/// The root blocks of a document: each value of each entry, in order.
pub open spec fn root_blocks(m: KvMap) -> Seq<BlockTree>
    decreases m.len(),
{
    if m.len() == 0 {
        Seq::empty()
    } else {
        root_blocks(m.drop_last()) + entry_blocks(m.last().0, m.last().1)
    }
}

/// The parts of the map file that a text holds, or why it holds none.
pub open spec fn vmf_of(s: Seq<char>) -> Result<VmfParts, crate::kv::grammar::Fail> {
    match parse_kv(s) {
        Ok(KvTree::Obj(m)) => Ok(vmf_fold(root_blocks(m))),
        Ok(KvTree::Str(_)) => Ok(empty_parts()),
        Err(f) => Err(f),
    }
}

/// The message of a root block of a kind the file does not model.
pub open spec fn unexpected_root_msg(name: Seq<char>) -> Seq<char> {
    "unexpected root block '"@ + name + "', kept as-is"@
}

/// The context after reading the entities of a `hidden` root block, each
/// within `hidden[<n>]` where `n` counts the hidden entities, `n0` before
/// the first.
pub open spec fn hidden_entities_ctx(c: CtxView, bs: Seq<BlockTree>, n0: nat) -> CtxView
    decreases bs.len(),
{
    if bs.len() == 0 {
        c
    } else {
        let c1 = hidden_entities_ctx(c, bs.drop_last(), n0);
        at_path(entity_ctx(entered(c1, indexed_segment("hidden"@, (n0 + bs.len() - 1) as nat)), bs.last()), c1.path)
    }
}

/// The context after reading one more root block into parts `p`: each
/// part's block is read as its reader does, an entity within
/// `entity[<n>]` where `n` counts the entities so far, an old-style
/// cordon within `cordon`, and other blocks are warned of.
pub open spec fn root_step_ctx(c: CtxView, p: VmfParts, b: BlockTree) -> CtxView {
    if named(b, "versioninfo"@) {
        versioninfo_ctx(c, b)
    } else if named(b, "visgroups"@) {
        visgroups_ctx(c, b)
    } else if named(b, "viewsettings"@) {
        viewsettings_ctx(c, b)
    } else if named(b, "world"@) {
        world_ctx(c, b)
    } else if named(b, "entity"@) {
        at_path(entity_ctx(entered(c, indexed_segment("entity"@, p.entities.len())), b), c.path)
    } else if named(b, "hidden"@) {
        hidden_entities_ctx(c, b.blocks, p.hiddens.len())
    } else if named(b, "cameras"@) {
        cameras_ctx(c, b)
    } else if named(b, "cordons"@) {
        cordons_ctx(c, b)
    } else if named(b, "cordon"@) {
        at_path(cordon_ctx(entered(c, "cordon"@), b), c.path)
    } else {
        warned(c, unexpected_root_msg(b.name))
    }
}

/// The context after reading the root blocks `bs`, in order.
pub open spec fn root_ctx(c: CtxView, bs: Seq<BlockTree>) -> CtxView
    decreases bs.len(),
{
    if bs.len() == 0 {
        c
    } else {
        root_step_ctx(root_ctx(c, bs.drop_last()), vmf_fold(bs.drop_last()), bs.last())
    }
}

/// A context at the top level with no warnings.
pub open spec fn fresh_ctx() -> CtxView {
    CtxView { path: Seq::empty(), warnings: Seq::empty(), suppressed: 0 }
}

/// The reading context at the end of reading a map file's text: what it
/// records are the warnings of the file, up to the limit, and the count of
/// those dropped.
pub open spec fn vmf_ctx(s: Seq<char>) -> CtxView {
    match parse_kv(s) {
        Ok(KvTree::Obj(m)) => root_ctx(fresh_ctx(), root_blocks(m)),
        _ => fresh_ctx(),
    }
}

/// Reads one root block into the file.
fn root_block_into(f: &mut VmfFile, block: VmfBlock, ctx: &mut ParseCtx)
    ensures
        file_parts(*final(f)) == vmf_step(file_parts(*old(f)), block@),
        final(f).path == old(f).path,
        final(ctx)@ == root_step_ctx(old(ctx)@, file_parts(*old(f)), block@),
{
    let ghost bv = block@;
    if eq_ignore_ascii_case(block.name.as_str(), "versioninfo") {
        f.versioninfo = VersionInfo::from_block(block, ctx);
    } else if eq_ignore_ascii_case(block.name.as_str(), "visgroups") {
        f.visgroups = VisGroups::from_block(block, ctx);
    } else if eq_ignore_ascii_case(block.name.as_str(), "viewsettings") {
        f.viewsettings = ViewSettings::from_block(block, ctx);
    } else if eq_ignore_ascii_case(block.name.as_str(), "world") {
        f.world = World::from_block(block, ctx);
    } else if eq_ignore_ascii_case(block.name.as_str(), "entity") {
        let ghost c1 = ctx@;
        ctx.enter_indexed("entity", f.entities.0.len());
        let e = Entity::from_block(block, ctx);
        ctx.leave();
        assert(c1.path.push(indexed_segment("entity"@, f.entities.0@.len() as nat)).drop_last() =~= c1.path);
        assert(ctx@ == at_path(entity_ctx(entered(c1, indexed_segment("entity"@, f.entities.0@.len() as nat)), bv), c1.path));
        let ghost e0 = f.entities.0@;
        f.entities.0.push(e);
        assert(entities_view(f.entities.0@) =~= entities_view(e0).push(e@));
    } else if eq_ignore_ascii_case(block.name.as_str(), "hidden") {
        let VmfBlock { name: _, key_values: _, blocks } = block;
        let ghost v0 = blocks@;
        let ghost bt = blocks_tree(v0);
        let ghost h0 = entities_view(f.hiddens.0@);
        let ghost c0 = ctx@;
        let mut q = into_queue(blocks);
        let n = q.len();
        let mut i: usize = 0;
        assert(h0 + hidden_entities(bt.take(0)) =~= h0);
        while i < n
            invariant
                i <= n,
                n == v0.len(),
                bt == blocks_tree(v0),
                bt == bv.blocks,
                q@ == v0.skip(i as int).reverse(),
                entities_view(f.hiddens.0@) == h0 + hidden_entities(bt.take(i as int)),
                file_parts(*f) == (VmfParts { hiddens: entities_view(f.hiddens.0@), ..file_parts(*old(f)) }),
                f.path == old(f).path,
                f.hiddens.0@.len() == h0.len() + i,
                ctx@ == hidden_entities_ctx(c0, bt.take(i as int), h0.len()),
            decreases n - i,
        {
            let b = next_block(&mut q, Ghost(v0), Ghost(i as int));
            assert(bt.take(i + 1).drop_last() =~= bt.take(i as int));
            assert(bt.take(i + 1).last() == bt[i as int]);
            let ghost c1 = ctx@;
            ctx.enter_indexed("hidden", f.hiddens.0.len());
            let mut e = Entity::from_block(b, ctx);
            ctx.leave();
            assert(c1.path.push(indexed_segment("hidden"@, (h0.len() + i) as nat)).drop_last() =~= c1.path);
            assert(ctx@ == at_path(
                entity_ctx(entered(c1, indexed_segment("hidden"@, (h0.len() + (i + 1) - 1) as nat)), bt[i as int]),
                c1.path,
            ));
            e.is_hidden = true;
            let ghost e0 = f.hiddens.0@;
            f.hiddens.0.push(e);
            assert(entities_view(f.hiddens.0@) =~= entities_view(e0).push(e@));
            assert(hidden_entities(bt.take(i + 1)) =~= hidden_entities(bt.take(i as int)).push(
                EntityView { is_hidden: true, ..entity_of(bt[i as int]) },
            ));
            i = i + 1;
        }
        assert(bt.take(n as int) =~= bt);
    } else if eq_ignore_ascii_case(block.name.as_str(), "cameras") {
        f.cameras = Cameras::from_block(block, ctx);
    } else if eq_ignore_ascii_case(block.name.as_str(), "cordons") {
        f.cordons = Cordons::from_block(block, ctx);
    } else if eq_ignore_ascii_case(block.name.as_str(), "cordon") {
        let ghost c1 = ctx@;
        ctx.enter("cordon");
        let c = Cordon::from_block(block, ctx);
        ctx.leave();
        assert(c1.path.push("cordon"@).drop_last() =~= c1.path);
        assert(ctx@ == at_path(cordon_ctx(entered(c1, "cordon"@), bv), c1.path));
        let ghost c0 = f.cordons.cordons@;
        f.cordons.cordons.push(c);
        assert(f.cordons@.cordons =~= crate::vmf::regions::cordons_view(c0).push(c@));
    } else {
        let mut m = String::new();
        m.append("unexpected root block '");
        m.append(block.name.as_str());
        m.append("', kept as-is");
        assert(m@ =~= unexpected_root_msg(bv.name));
        ctx.warn(m.as_str());
        let ghost x0 = f.extra_blocks@;
        f.extra_blocks.push(block);
        assert(f.extra_blocks@.drop_last() =~= x0);
    }
}

impl VmfFile {
    /// An empty map file.
    pub fn new() -> (f: Self)
        ensures
            file_parts(f) == empty_parts(),
            f.path is None,
            f.warnings@.len() == 0,
            f.suppressed_warnings == 0,
    {
        let f = VmfFile {
            path: None,
            versioninfo: VersionInfo::new(),
            visgroups: VisGroups::new(),
            viewsettings: ViewSettings::new(),
            world: World::new(),
            entities: Entities(Vec::new()),
            hiddens: Entities(Vec::new()),
            cameras: Cameras::new(),
            cordons: Cordons::new(),
            extra_blocks: Vec::new(),
            warnings: Vec::new(),
            suppressed_warnings: 0,
        };
        assert(f.visgroups@.groups =~= Seq::empty());
        assert(entities_view(f.entities.0@) =~= Seq::empty());
        assert(entities_view(f.hiddens.0@) =~= Seq::empty());
        assert(blocks_tree(f.extra_blocks@) =~= Seq::empty());
        assert(file_parts(f) =~= empty_parts());
        f
    }

    /// Reads a map file from its text. Problems within blocks do not fail
    /// the reading: the values are defaulted and the problems recorded in
    /// `warnings`.
    pub fn parse(content: &str) -> (r: Result<Self, VmfError>)
        ensures
            match vmf_of(content@) {
                Ok(p) => {
                    &&& r is Ok
                    &&& file_parts(r->Ok_0) == p
                    &&& r->Ok_0.path is None
                    &&& texts(r->Ok_0.warnings@) == vmf_ctx(content@).warnings
                    &&& r->Ok_0.warnings@.len() <= crate::vmf::parse_ctx::MAX_WARNINGS
                    &&& r->Ok_0.suppressed_warnings == vmf_ctx(content@).suppressed
                },
                Err(f) => r is Err && r->Err_0 is Parse && fail_is(r->Err_0->Parse_0, f),
            },
    {
        parse_vmf(content)
    }
}

/// Reads a map file from its text.
pub fn parse_vmf(input: &str) -> (r: Result<VmfFile, VmfError>)
    ensures
        match vmf_of(input@) {
            Ok(p) => {
                &&& r is Ok
                &&& file_parts(r->Ok_0) == p
                &&& r->Ok_0.path is None
                &&& texts(r->Ok_0.warnings@) == vmf_ctx(input@).warnings
                &&& r->Ok_0.warnings@.len() <= crate::vmf::parse_ctx::MAX_WARNINGS
                &&& r->Ok_0.suppressed_warnings == vmf_ctx(input@).suppressed
            },
            Err(f) => r is Err && r->Err_0 is Parse && fail_is(r->Err_0->Parse_0, f),
        },
{
    let mut de = Deserializer::from_str(input);
    let root = match de.parse_root() {
        Ok(v) => v,
        Err(e) => {
            return Err(VmfError::Parse(e));
        },
    };
    let mut f = VmfFile::new();
    let mut ctx = ParseCtx::new();
    match &root {
        Value::Obj(es) => {
            let ghost m = entries_tree(es@);
            let mut i: usize = 0;
            assert(m.take(0) =~= Seq::<(Seq<char>, Seq<KvTree>)>::empty());
            while i < es.len()
                invariant
                    i <= es@.len(),
                    m == entries_tree(es@),
                    file_parts(f) == vmf_fold(root_blocks(m.take(i as int))),
                    ctx@ == root_ctx(fresh_ctx(), root_blocks(m.take(i as int))),
                    f.path is None,
                decreases es.len() - i,
            {
                assert(m.take(i + 1).drop_last() =~= m.take(i as int));
                let key = &es[i].key;
                let vs = &es[i].values;
                let ghost vt = values_tree(vs@);
                let ghost pre = root_blocks(m.take(i as int));
                let mut j: usize = 0;
                assert(pre + entry_blocks(key@, vt.take(0)) =~= pre);
                while j < vs.len()
                    invariant
                        j <= vs@.len(),
                        i < es@.len(),
                        vs == &es@[i as int].values,
                        key == &es@[i as int].key,
                        vt == values_tree(vs@),
                        file_parts(f) == vmf_fold(pre + entry_blocks(key@, vt.take(j as int))),
                        ctx@ == root_ctx(fresh_ctx(), pre + entry_blocks(key@, vt.take(j as int))),
                        f.path is None,
                    decreases vs.len() - j,
                {
                    let block = value_to_vmf_block(key.clone(), &vs[j]);
                    let ghost before = pre + entry_blocks(key@, vt.take(j as int));
                    assert(pre + entry_blocks(key@, vt.take(j + 1)) =~= before.push(block@));
                    assert(before.push(block@).drop_last() =~= before);
                    root_block_into(&mut f, block, &mut ctx);
                    j = j + 1;
                }
                assert(vt.take(vs@.len() as int) =~= vt);
                assert(entry_blocks(key@, vt) == entry_blocks(m[i as int].0, m[i as int].1));
                i = i + 1;
            }
            assert(m.take(es@.len() as int) =~= m);
        },
        Value::Str(_) => {},
    }
    let (warnings, suppressed) = ctx.into_warnings();
    f.warnings = warnings;
    f.suppressed_warnings = suppressed;
    Ok(f)
}

/// The text of the hidden entities, each in a `hidden` block.
pub open spec fn hiddens_text(es: Seq<EntityView>) -> Seq<char>
    decreases es.len(),
{
    if es.len() == 0 {
        Seq::empty()
    } else {
        hiddens_text(es.drop_last()) + "hidden\n{\n"@ + entity_text(es.last(), 1) + seq!['}', '\n']
    }
}

/// The texts of entities at the top level.
pub open spec fn entities_text(es: Seq<EntityView>) -> Seq<char>
    decreases es.len(),
{
    if es.len() == 0 {
        Seq::empty()
    } else {
        entities_text(es.drop_last()) + entity_text(es.last(), 0)
    }
}

/// The texts of blocks at the top level.
pub open spec fn root_text(bs: Seq<BlockTree>) -> Seq<char>
    decreases bs.len(),
{
    if bs.len() == 0 {
        Seq::empty()
    } else {
        root_text(bs.drop_last()) + block_text(bs.last(), 0)
    }
}

/// The text of a map file: the metadata, the world, the entities, the
/// hidden entities each in a `hidden` block, the regions and the kept
/// blocks.
pub open spec fn vmf_text(p: VmfParts) -> Seq<char> {
    versioninfo_text(p.versioninfo, 0) + visgroups_block_text(p.visgroups, 0) + viewsettings_text(p.viewsettings, 0)
        + world_text(p.world, 0) + entities_text(p.entities) + hiddens_text(p.hiddens) + cameras_text(p.cameras, 0)
        + cordons_block_text(p.cordons, 0) + root_text(p.extra)
}

impl VmfFile {
    /// The text of the map file.
    pub fn to_vmf_string(&self) -> (output: String)
        ensures
            output@ == vmf_text(file_parts(*self)),
    {
        let mut output = String::new();
        let t = self.versioninfo.to_vmf_string(0);
        output.append(t.as_str());
        assert(output@ =~= versioninfo_text(self.versioninfo@, 0));
        let t = self.visgroups.to_vmf_string(0);
        output.append(t.as_str());
        let t = self.viewsettings.to_vmf_string(0);
        output.append(t.as_str());
        let t = self.world.to_vmf_string(0);
        output.append(t.as_str());
        let ghost o0 = output@;
        let ghost ev = entities_view(self.entities.0@);
        let mut i: usize = 0;
        assert(ev.take(0) =~= Seq::<EntityView>::empty());
        while i < self.entities.0.len()
            invariant
                i <= self.entities.0@.len(),
                ev == entities_view(self.entities.0@),
                output@ == o0 + entities_text(ev.take(i as int)),
            decreases self.entities.0.len() - i,
        {
            assert(ev.take(i + 1).drop_last() =~= ev.take(i as int));
            let t = self.entities.0[i].to_vmf_string(0);
            output.append(t.as_str());
            i = i + 1;
        }
        assert(ev.take(self.entities.0@.len() as int) =~= ev);
        let ghost o1 = output@;
        let ghost hv = entities_view(self.hiddens.0@);
        let mut j: usize = 0;
        assert(hv.take(0) =~= Seq::<EntityView>::empty());
        while j < self.hiddens.0.len()
            invariant
                j <= self.hiddens.0@.len(),
                hv == entities_view(self.hiddens.0@),
                output@ == o1 + hiddens_text(hv.take(j as int)),
            decreases self.hiddens.0.len() - j,
        {
            assert(hv.take(j + 1).drop_last() =~= hv.take(j as int));
            output.append("hidden\n{\n");
            let t = self.hiddens.0[j].to_vmf_string(1);
            output.append(t.as_str());
            crate::text::push_char(&mut output, '}');
            crate::text::push_char(&mut output, '\n');
            j = j + 1;
        }
        assert(hv.take(self.hiddens.0@.len() as int) =~= hv);
        let t = self.cameras.to_vmf_string(0);
        output.append(t.as_str());
        let t = self.cordons.to_vmf_string(0);
        output.append(t.as_str());
        let ghost o2 = output@;
        let ghost xv = blocks_tree(self.extra_blocks@);
        let mut k: usize = 0;
        assert(xv.take(0) =~= Seq::<BlockTree>::empty());
        while k < self.extra_blocks.len()
            invariant
                k <= self.extra_blocks@.len(),
                xv == blocks_tree(self.extra_blocks@),
                output@ == o2 + root_text(xv.take(k as int)),
            decreases self.extra_blocks.len() - k,
        {
            assert(xv.take(k + 1).drop_last() =~= xv.take(k as int));
            let t = self.extra_blocks[k].serialize(0);
            output.append(t.as_str());
            k = k + 1;
        }
        assert(xv.take(self.extra_blocks@.len() as int) =~= xv);
        output
    }
}

impl VmfFile {
    /// Adds the contents of another map file to this one: its visgroups,
    /// its world solids (visible and hidden), its entities (visible and
    /// hidden) and its cordons. The version info, view settings, cameras
    /// and everything else stay those of this file.
    pub fn merge(&mut self, other: Self)
        ensures
            final(self).visgroups.groups@ == old(self).visgroups.groups@ + other.visgroups.groups@,
            final(self).world.solids@ == old(self).world.solids@ + other.world.solids@,
            final(self).world.hidden@ == old(self).world.hidden@ + other.world.hidden@,
            final(self).entities.0@ == old(self).entities.0@ + other.entities.0@,
            final(self).hiddens.0@ == old(self).hiddens.0@ + other.hiddens.0@,
            final(self).cordons.cordons@ == old(self).cordons.cordons@ + other.cordons.cordons@,
            final(self).path == old(self).path,
            final(self).versioninfo == old(self).versioninfo,
            final(self).visgroups.extra == old(self).visgroups.extra,
            final(self).viewsettings == old(self).viewsettings,
            final(self).world.key_values == old(self).world.key_values,
            final(self).world.groups == old(self).world.groups,
            final(self).world.extra == old(self).world.extra,
            final(self).cameras == old(self).cameras,
            final(self).cordons.active == old(self).cordons.active,
            final(self).cordons.extra == old(self).cordons.extra,
            final(self).extra_blocks == old(self).extra_blocks,
            final(self).warnings == old(self).warnings,
            final(self).suppressed_warnings == old(self).suppressed_warnings,
    {
        let mut other = other;
        self.visgroups.groups.append(&mut other.visgroups.groups);
        self.world.solids.append(&mut other.world.solids);
        self.world.hidden.append(&mut other.world.hidden);
        self.entities.0.append(&mut other.entities.0);
        self.hiddens.0.append(&mut other.hiddens.0);
        self.cordons.cordons.append(&mut other.cordons.cordons);
    }
}

/// The visgroup IDs that a query on the group `g` covers: `g` and all of
/// its descendants, or `g` alone.
pub open spec fn query_ids(g: VisGroupView, include_children: bool) -> Seq<i32> {
    if include_children {
        collected(g, Seq::empty())
    } else {
        seq![g.id]
    }
}

/// Whether one of `ids` is in `set`.
pub open spec fn shares_id(ids: Seq<i32>, set: Seq<i32>) -> bool {
    exists|i: int| 0 <= i < ids.len() && set.contains(#[trigger] ids[i])
}

/// Whether one of `ids` is in `set`.
fn shares(ids: &Vec<i32>, set: &Vec<i32>) -> (r: bool)
    ensures
        r == shares_id(ids@, set@),
{
    let mut i: usize = 0;
    while i < ids.len()
        invariant
            i <= ids@.len(),
            forall|k: int| 0 <= k < i ==> !set@.contains(#[trigger] ids@[k]),
        decreases ids.len() - i,
    {
        let mut j: usize = 0;
        while j < set.len()
            invariant
                i < ids@.len(),
                j <= set@.len(),
                forall|k: int| 0 <= k < j ==> #[trigger] set@[k] != ids@[i as int],
            decreases set.len() - j,
        {
            if set[j] == ids[i] {
                assert(set@.contains(ids@[i as int]));
                return true;
            }
            j = j + 1;
        }
        i = i + 1;
    }
    false
}

/// The entities of `es` in one of the visgroups `set`, in order.
pub open spec fn entities_in(es: Seq<Entity>, set: Seq<i32>) -> Seq<Entity>
    decreases es.len(),
{
    if es.len() == 0 {
        Seq::empty()
    } else {
        entities_in(es.drop_last(), set) + if shares_id(es.last()@.editor.visgroup_ids, set) {
            seq![es.last()]
        } else {
            Seq::empty()
        }
    }
}

/// The solids of `ss` in one of the visgroups `set`, in order.
pub open spec fn solids_in(ss: Seq<Solid>, set: Seq<i32>) -> Seq<Solid>
    decreases ss.len(),
{
    if ss.len() == 0 {
        Seq::empty()
    } else {
        solids_in(ss.drop_last(), set) + if shares_id(ss.last()@.editor.visgroup_ids, set) {
            seq![ss.last()]
        } else {
            Seq::empty()
        }
    }
}

/// The solids a list of references points to.
pub open spec fn solid_derefs(v: Seq<&Solid>) -> Seq<Solid> {
    v.map_values(|s: &Solid| *s)
}

impl VmfFile {
    /// The entities, visible then hidden, that are in the visgroup
    /// `group_id` (or, with `include_children`, in it or one of its
    /// descendants); `None` when no visgroup has that ID.
    pub fn get_entities_in_visgroup(&self, group_id: i32, include_children: bool) -> (r: Option<Vec<&Entity>>)
        ensures
            match find_id(self.visgroups@.groups, group_id) {
                Some(g) => r is Some && derefs(r->0@) == entities_in(
                    self.entities.0@ + self.hiddens.0@,
                    query_ids(g, include_children),
                ),
                None => r is None,
            },
    {
        let ids = match self.visgroups.resolve_ids(group_id, include_children) {
            Some(ids) => ids,
            None => {
                return None;
            },
        };
        let ghost all = self.entities.0@ + self.hiddens.0@;
        let n = self.entities.0.len();
        let mut r: Vec<&Entity> = Vec::new();
        let mut k: usize = 0;
        assert(all.take(0) =~= Seq::<Entity>::empty());
        assert(derefs(r@) =~= Seq::<Entity>::empty());
        while k < n
            invariant
                k <= n,
                n == self.entities.0@.len(),
                all == self.entities.0@ + self.hiddens.0@,
                derefs(r@) == entities_in(all.take(k as int), ids@),
            decreases n - k,
        {
            let e = &self.entities.0[k];
            assert(*e == all[k as int]);
            assert(all.take(k + 1).drop_last() =~= all.take(k as int));
            let ghost r0 = r@;
            if shares(&e.editor.visgroup_ids, &ids) {
                r.push(e);
                assert(derefs(r@) =~= derefs(r0).push(*e));
            } else {
                assert(entities_in(all.take(k + 1), ids@) =~= entities_in(all.take(k as int), ids@));
            }
            k = k + 1;
        }
        let mut j: usize = 0;
        while j < self.hiddens.0.len()
            invariant
                j <= self.hiddens.0@.len(),
                n == self.entities.0@.len(),
                all == self.entities.0@ + self.hiddens.0@,
                derefs(r@) == entities_in(all.take(n + j), ids@),
            decreases self.hiddens.0.len() - j,
        {
            let e = &self.hiddens.0[j];
            assert(*e == all[n + j]);
            assert(all.take(n + j + 1).drop_last() =~= all.take(n + j));
            let ghost r0 = r@;
            if shares(&e.editor.visgroup_ids, &ids) {
                r.push(e);
                assert(derefs(r@) =~= derefs(r0).push(*e));
            } else {
                assert(entities_in(all.take(n + j + 1), ids@) =~= entities_in(all.take(n + j), ids@));
            }
            j = j + 1;
        }
        assert(all.take(all.len() as int) =~= all);
        Some(r)
    }

    /// The world solids, visible then hidden, that are in the visgroup
    /// `group_id` (or, with `include_children`, in it or one of its
    /// descendants); `None` when no visgroup has that ID.
    pub fn get_solids_in_visgroup(&self, group_id: i32, include_children: bool) -> (r: Option<Vec<&Solid>>)
        ensures
            match find_id(self.visgroups@.groups, group_id) {
                Some(g) => r is Some && solid_derefs(r->0@) == solids_in(
                    self.world.solids@ + self.world.hidden@,
                    query_ids(g, include_children),
                ),
                None => r is None,
            },
    {
        let ids = match self.visgroups.resolve_ids(group_id, include_children) {
            Some(ids) => ids,
            None => {
                return None;
            },
        };
        let ghost all = self.world.solids@ + self.world.hidden@;
        let n = self.world.solids.len();
        let mut r: Vec<&Solid> = Vec::new();
        let mut k: usize = 0;
        assert(all.take(0) =~= Seq::<Solid>::empty());
        assert(solid_derefs(r@) =~= Seq::<Solid>::empty());
        while k < n
            invariant
                k <= n,
                n == self.world.solids@.len(),
                all == self.world.solids@ + self.world.hidden@,
                solid_derefs(r@) == solids_in(all.take(k as int), ids@),
            decreases n - k,
        {
            let s = &self.world.solids[k];
            assert(*s == all[k as int]);
            assert(all.take(k + 1).drop_last() =~= all.take(k as int));
            let ghost r0 = r@;
            if shares(&s.editor.visgroup_ids, &ids) {
                r.push(s);
                assert(solid_derefs(r@) =~= solid_derefs(r0).push(*s));
            } else {
                assert(solids_in(all.take(k + 1), ids@) =~= solids_in(all.take(k as int), ids@));
            }
            k = k + 1;
        }
        let mut j: usize = 0;
        while j < self.world.hidden.len()
            invariant
                j <= self.world.hidden@.len(),
                n == self.world.solids@.len(),
                all == self.world.solids@ + self.world.hidden@,
                solid_derefs(r@) == solids_in(all.take(n + j), ids@),
            decreases self.world.hidden.len() - j,
        {
            let s = &self.world.hidden[j];
            assert(*s == all[n + j]);
            assert(all.take(n + j + 1).drop_last() =~= all.take(n + j));
            let ghost r0 = r@;
            if shares(&s.editor.visgroup_ids, &ids) {
                r.push(s);
                assert(solid_derefs(r@) =~= solid_derefs(r0).push(*s));
            } else {
                assert(solids_in(all.take(n + j + 1), ids@) =~= solids_in(all.take(n + j), ids@));
            }
            j = j + 1;
        }
        assert(all.take(all.len() as int) =~= all);
        Some(r)
    }
}

impl Default for VmfFile {
    /// An empty map file.
    fn default() -> (f: Self)
        ensures
            file_parts(f) == empty_parts(),
            f.path is None,
            f.warnings@.len() == 0,
            f.suppressed_warnings == 0,
    {
        VmfFile::new()
    }
}

} // verus!
