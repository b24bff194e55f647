//! The typed structures turned back into generic blocks, and read from a
//! block with a parser context of their own.

use vstd::prelude::*;
use indexmap::IndexMap;
use crate::ordmap::{put, put_all, smap_extend, smap_insert, smap_new, str_entries};
use crate::text::{dec, dec_int, i64_to_string, u64_to_string};
use crate::vmf::block::{BlockTree, VmfBlock, blocks_tree, joined, join_repeated_key, lemma_blocks_tree};
use crate::vmf::common::{Editor, EditorView, editor_of, opt_view};
use crate::vmf::utils::{Pairs, To01String, bool_text};
use crate::ordmap::{list_entries, lmap_get_index, lmap_len};
use crate::vmf::connection::{Connection, grouped, lemma_key_values_round_trip, pairs_of_conns, writable};
use crate::vmf::disp::{DispInfo, DispInfoView, rows_pairs, verts_string, verts_text};
use crate::vmf::entities::{Entity, EntityView};
use crate::vmf::typed::{into_queue, next_block};
use crate::vmf::file::VmfError;
use crate::vmf::parse_ctx::{ParseCtx, texts};
use crate::vmf::disp::{DispRows, dispinfo_of, rows_of};
use crate::vmf::world::{group_of, side_of, solid_of, world_of};
use crate::vmf::entities::{EntityParts, conns_of_block, entity_blocks, entity_of};
use crate::vmf::typed::named;
use crate::vmf::metadata::{versioninfo_of, viewsettings_of};
use crate::vmf::visgroups::{visgroup_of, visgroups_of};
use crate::vmf::regions::{camera_of, cameras_of, cordon_of, cordons_of};
use crate::vmf::metadata::{VersionInfo, VersionInfoView, ViewSettings, ViewSettingsView};
use crate::vmf::regions::{Camera, CameraView, Cameras, CamerasView, Cordon, CordonView, Cordons, CordonsView,
    cams_view, cordons_view};
use crate::vmf::visgroups::{VisGroup, VisGroupView, VisGroups, VisGroupsView, lemma_vgs_view, vg_count, vg_view,
    vgs_view};
use crate::vmf::world::{Group, GroupView, Side, SideView, Solid, SolidView, World, WorldView, groups_view,
    sides_view, solids_view};

verus! {

broadcast use lemma_blocks_tree;

/// `insert` of an optional value: nothing where there is none.
pub open spec fn put_opt(es: Pairs, k: Seq<char>, v: Option<Seq<char>>) -> Pairs {
    match v {
        Some(x) => put(es, k, x),
        None => es,
    }
}

/// The texts of visgroup IDs.
pub open spec fn id_texts(ids: Seq<i32>) -> Seq<Seq<char>> {
    ids.map_values(|i: i32| dec_int(i as int))
}

/// The text of an optional number.
pub open spec fn opt_dec_int(v: Option<i32>) -> Option<Seq<char>> {
    match v {
        Some(x) => Some(dec_int(x as int)),
        None => None,
    }
}

/// The block of editor data: its color, its visgroups (all in one
/// `visgroupid` pair, where there are any), its group, the two flags, the
/// comments and logical position where present, then the other pairs and
/// blocks.
pub open spec fn editor_block(e: EditorView) -> BlockTree {
    let a = put(Seq::empty(), "color"@, e.color);
    let b = if e.visgroup_ids.len() > 0 {
        put(a, "visgroupid"@, joined(id_texts(e.visgroup_ids)))
    } else {
        a
    };
    let c = put_opt(b, "groupid"@, opt_dec_int(e.group_id));
    let d = put(put(c, "visgroupshown"@, bool_text(e.visgroup_shown)), "visgroupautoshown"@, bool_text(e.visgroup_auto_shown));
    let f = put_opt(put_opt(d, "comments"@, e.comments), "logicalpos"@, e.logical_pos);
    BlockTree { name: "editor"@, kvs: put_all(f, e.extra.0), blocks: e.extra.1 }
}

/// Inserts a pair.
pub(crate) fn kv_put(m: &mut IndexMap<String, String>, k: &str, v: String)
    ensures
        str_entries(*final(m)) == put(str_entries(*old(m)), k@, v@),
{
    let _ = smap_insert(m, k.to_string(), v);
}

/// Inserts a pair where there is a value.
fn kv_put_opt(m: &mut IndexMap<String, String>, k: &str, v: Option<String>)
    ensures
        str_entries(*final(m)) == put_opt(str_entries(*old(m)), k@, opt_view(v)),
{
    match v {
        Some(x) => kv_put(m, k, x),
        None => {},
    }
}

/// Adds blocks at the end.
pub(crate) fn add_blocks(bs: &mut Vec<VmfBlock>, more: Vec<VmfBlock>)
    ensures
        blocks_tree(final(bs)@) == blocks_tree(old(bs)@) + blocks_tree(more@),
{
    let ghost m0 = more@;
    let mut more = more;
    bs.append(&mut more);
    assert(blocks_tree(bs@) =~= blocks_tree(old(bs)@) + blocks_tree(m0));
}

/// The texts of numbers.
fn id_strings(ids: &Vec<i32>) -> (r: Vec<String>)
    ensures
        r@.map_values(|v: String| v@) == id_texts(ids@),
{
    let mut r: Vec<String> = Vec::new();
    let mut i: usize = 0;
    while i < ids.len()
        invariant
            i <= ids@.len(),
            r@.len() == i,
            forall|k: int| 0 <= k < i ==> (#[trigger] r@[k])@ == dec_int(ids@[k] as int),
        decreases ids.len() - i,
    {
        r.push(i64_to_string(ids[i] as i64));
        i = i + 1;
    }
    assert(r@.map_values(|v: String| v@) =~= id_texts(ids@));
    r
}

impl Editor {
    /// The `editor` block of the data.
    pub fn into_vmf_block(self) -> (b: VmfBlock)
        ensures
            b@ == editor_block(self@),
    {
        let ghost ev = self@;
        let Editor {
            color,
            visgroup_ids,
            group_id,
            visgroup_shown,
            visgroup_auto_shown,
            comments,
            logical_pos,
            extra,
        } = self;
        let mut kv = smap_new();
        kv_put(&mut kv, "color", color);
        if visgroup_ids.len() > 0 {
            let ts = id_strings(&visgroup_ids);
            kv_put(&mut kv, "visgroupid", join_repeated_key(&ts));
        }
        match group_id {
            Some(g) => kv_put(&mut kv, "groupid", i64_to_string(g as i64)),
            None => {},
        }
        kv_put(&mut kv, "visgroupshown", visgroup_shown.to_01_string());
        kv_put(&mut kv, "visgroupautoshown", visgroup_auto_shown.to_01_string());
        kv_put_opt(&mut kv, "comments", comments);
        kv_put_opt(&mut kv, "logicalpos", logical_pos);
        smap_extend(&mut kv, extra.key_values);
        VmfBlock { name: "editor".to_string(), key_values: kv, blocks: extra.blocks }
    }
}

/// A block of rows `row0`, `row1`, ...
pub open spec fn rows_block(name: Seq<char>, rows: Seq<Seq<char>>) -> BlockTree {
    BlockTree { name, kvs: rows_pairs(rows, rows.len()), blocks: Seq::empty() }
}

/// The pairs of the allowed vertices: each list written as its numbers
/// separated by spaces.
pub open spec fn allowed_pairs(av: Seq<(Seq<char>, Seq<i32>)>) -> Pairs
    decreases av.len(),
{
    if av.len() == 0 {
        Seq::empty()
    } else {
        put(allowed_pairs(av.drop_last()), av.last().0, verts_text(av.last().1))
    }
}

/// The text of an optional unsigned number.
pub open spec fn opt_dec(v: Option<u32>) -> Option<Seq<char>> {
    match v {
        Some(x) => Some(dec(x as nat)),
        None => None,
    }
}

/// The block of displacement data: its numbers and position, then the six
/// row blocks and the allowed vertices, then the other blocks.
pub open spec fn dispinfo_block(d: DispInfoView) -> BlockTree {
    let a = put(
        put(put(put(Seq::empty(), "power"@, dec(d.power as nat)), "startposition"@, d.start_position), "elevation"@, d.elevation),
        "subdiv"@,
        bool_text(d.subdiv),
    );
    let kvs = put_all(put_opt(a, "flags"@, opt_dec(d.flags)), d.extra.0);
    BlockTree {
        name: "dispinfo"@,
        kvs,
        blocks: seq![
            rows_block("normals"@, d.normals),
            rows_block("distances"@, d.distances),
            rows_block("offsets"@, d.offsets),
            rows_block("offset_normals"@, d.offset_normals),
            rows_block("alphas"@, d.alphas),
            rows_block("triangle_tags"@, d.triangle_tags),
            BlockTree { name: "allowed_verts"@, kvs: allowed_pairs(d.allowed_verts), blocks: Seq::empty() },
        ] + d.extra.1,
    }
}

impl DispInfo {
    /// The `dispinfo` block of the data.
    pub fn into_vmf_block(self) -> (b: VmfBlock)
        ensures
            b@ == dispinfo_block(self@),
    {
        let ghost dv = self@;
        let DispInfo {
            power,
            start_position,
            flags,
            elevation,
            subdiv,
            normals,
            distances,
            offsets,
            offset_normals,
            alphas,
            triangle_tags,
            allowed_verts,
            extra,
        } = self;
        let mut blocks: Vec<VmfBlock> = Vec::new();
        blocks.push(normals.into_vmf_block("normals"));
        blocks.push(distances.into_vmf_block("distances"));
        blocks.push(offsets.into_vmf_block("offsets"));
        blocks.push(offset_normals.into_vmf_block("offset_normals"));
        blocks.push(alphas.into_vmf_block("alphas"));
        blocks.push(triangle_tags.into_vmf_block("triangle_tags"));
        let ghost av = list_entries(allowed_verts);
        let mut akv = smap_new();
        let mut i: usize = 0;
        let n = lmap_len(&allowed_verts);
        assert(av.take(0) =~= Seq::<(Seq<char>, Seq<i32>)>::empty());
        while i < n
            invariant
                i <= n,
                n == av.len(),
                av == list_entries(allowed_verts),
                str_entries(akv) == allowed_pairs(av.take(i as int)),
            decreases n - i,
        {
            assert(av.take(i + 1).drop_last() =~= av.take(i as int));
            match lmap_get_index(&allowed_verts, i) {
                Some((k, vs)) => {
                    kv_put(&mut akv, k.as_str(), verts_string(vs));
                },
                None => {},
            }
            i = i + 1;
        }
        assert(av.take(n as int) =~= av);
        blocks.push(VmfBlock { name: "allowed_verts".to_string(), key_values: akv, blocks: Vec::new() });
        let mut kv = smap_new();
        kv_put(&mut kv, "power", u64_to_string(power as u64));
        kv_put(&mut kv, "startposition", start_position);
        kv_put(&mut kv, "elevation", elevation);
        kv_put(&mut kv, "subdiv", subdiv.to_01_string());
        match flags {
            Some(f) => kv_put(&mut kv, "flags", u64_to_string(f as u64)),
            None => {},
        }
        smap_extend(&mut kv, extra.key_values);
        let ghost b0 = blocks@;
        add_blocks(&mut blocks, extra.blocks);
        let b = VmfBlock { name: "dispinfo".to_string(), key_values: kv, blocks };
        assert(blocks_tree(b0) =~= dispinfo_block(dv).blocks.take(7));
        assert(b@.blocks =~= dispinfo_block(dv).blocks);
        b
    }
}

/// The block of a side: its pairs in their order, the optional rotation
/// and flags, the other pairs, then the displacement and the other blocks.
pub open spec fn side_block(s: SideView) -> BlockTree {
    let a = put(
        put(put(put(put(Seq::empty(), "id"@, dec(s.id as nat)), "plane"@, s.plane), "material"@, s.material), "uaxis"@, s.u_axis),
        "vaxis"@,
        s.v_axis,
    );
    let b = put(put(a, "lightmapscale"@, dec(s.lightmap_scale as nat)), "smoothing_groups"@, dec_int(s.smoothing_groups as int));
    let c = put_opt(put_opt(b, "rotation"@, s.rotation), "flags"@, opt_dec(s.flags));
    BlockTree {
        name: "side"@,
        kvs: put_all(c, s.extra.0),
        blocks: match s.dispinfo {
            Some(d) => seq![dispinfo_block(d)],
            None => Seq::empty(),
        } + s.extra.1,
    }
}

impl Side {
    /// The `side` block of the side.
    pub fn into_vmf_block(self) -> (b: VmfBlock)
        ensures
            b@ == side_block(self@),
    {
        let ghost sv = self@;
        let Side {
            id,
            plane,
            material,
            u_axis,
            v_axis,
            rotation,
            lightmap_scale,
            smoothing_groups,
            flags,
            dispinfo,
            extra,
        } = self;
        let mut kv = smap_new();
        kv_put(&mut kv, "id", u64_to_string(id as u64));
        kv_put(&mut kv, "plane", plane);
        kv_put(&mut kv, "material", material);
        kv_put(&mut kv, "uaxis", u_axis);
        kv_put(&mut kv, "vaxis", v_axis);
        kv_put(&mut kv, "lightmapscale", u64_to_string(lightmap_scale as u64));
        kv_put(&mut kv, "smoothing_groups", i64_to_string(smoothing_groups as i64));
        kv_put_opt(&mut kv, "rotation", rotation);
        match flags {
            Some(f) => kv_put(&mut kv, "flags", u64_to_string(f as u64)),
            None => {},
        }
        smap_extend(&mut kv, extra.key_values);
        let mut blocks: Vec<VmfBlock> = Vec::new();
        match dispinfo {
            Some(d) => blocks.push(d.into_vmf_block()),
            None => {},
        }
        add_blocks(&mut blocks, extra.blocks);
        let b = VmfBlock { name: "side".to_string(), key_values: kv, blocks };
        assert(b@.blocks =~= side_block(sv).blocks);
        b
    }
}

/// The blocks of sides, in order.
fn sides_into_blocks(v: Vec<Side>) -> (bs: Vec<VmfBlock>)
    ensures
        blocks_tree(bs@) == sides_view(v@).map_values(|s: SideView| side_block(s)),
{
    let ghost v0 = v@;
    let mut q = into_queue(v);
    let n = q.len();
    let mut bs: Vec<VmfBlock> = Vec::new();
    let mut i: usize = 0;
    while i < n
        invariant
            i <= n,
            n == v0.len(),
            q@ == v0.skip(i as int).reverse(),
            bs@.len() == i,
            forall|k: int| 0 <= k < i ==> (#[trigger] bs@[k])@ == side_block(v0[k]@),
        decreases n - i,
    {
        let s = next_block(&mut q, Ghost(v0), Ghost(i as int));
        bs.push(s.into_vmf_block());
        i = i + 1;
    }
    assert(blocks_tree(bs@) =~= sides_view(v0).map_values(|s: SideView| side_block(s)));
    bs
}

/// The block of a solid: its ID and other pairs, then its sides, its
/// editor data and the other blocks.
pub open spec fn solid_block(s: SolidView) -> BlockTree {
    BlockTree {
        name: "solid"@,
        kvs: put_all(put(Seq::empty(), "id"@, dec(s.id as nat)), s.extra.0),
        blocks: s.sides.map_values(|x: SideView| side_block(x)) + seq![editor_block(s.editor)] + s.extra.1,
    }
}

impl Solid {
    /// The `solid` block of the solid.
    pub fn into_vmf_block(self) -> (b: VmfBlock)
        ensures
            b@ == solid_block(self@),
    {
        let ghost sv = self@;
        let Solid { id, sides, editor, extra } = self;
        let mut blocks = sides_into_blocks(sides);
        blocks.push(editor.into_vmf_block());
        add_blocks(&mut blocks, extra.blocks);
        let mut kv = smap_new();
        kv_put(&mut kv, "id", u64_to_string(id));
        smap_extend(&mut kv, extra.key_values);
        let b = VmfBlock { name: "solid".to_string(), key_values: kv, blocks };
        assert(b@.blocks =~= solid_block(sv).blocks);
        b
    }
}

/// The blocks of solids, in order.
fn solids_into_blocks(v: Vec<Solid>) -> (bs: Vec<VmfBlock>)
    ensures
        blocks_tree(bs@) == solids_view(v@).map_values(|s: SolidView| solid_block(s)),
{
    let ghost v0 = v@;
    let mut q = into_queue(v);
    let n = q.len();
    let mut bs: Vec<VmfBlock> = Vec::new();
    let mut i: usize = 0;
    while i < n
        invariant
            i <= n,
            n == v0.len(),
            q@ == v0.skip(i as int).reverse(),
            bs@.len() == i,
            forall|k: int| 0 <= k < i ==> (#[trigger] bs@[k])@ == solid_block(v0[k]@),
        decreases n - i,
    {
        let s = next_block(&mut q, Ghost(v0), Ghost(i as int));
        bs.push(s.into_vmf_block());
        i = i + 1;
    }
    assert(blocks_tree(bs@) =~= solids_view(v0).map_values(|s: SolidView| solid_block(s)));
    bs
}

/// A hidden solid's block inside a `hidden` block of its own.
pub open spec fn hidden_block(s: SolidView) -> BlockTree {
    BlockTree { name: "hidden"@, kvs: Seq::empty(), blocks: seq![solid_block(s)] }
}

/// The blocks of hidden solids, each in a `hidden` block, in order.
fn hidden_into_blocks(v: Vec<Solid>) -> (bs: Vec<VmfBlock>)
    ensures
        blocks_tree(bs@) == solids_view(v@).map_values(|s: SolidView| hidden_block(s)),
{
    let ghost v0 = v@;
    let mut q = into_queue(v);
    let n = q.len();
    let mut bs: Vec<VmfBlock> = Vec::new();
    let mut i: usize = 0;
    while i < n
        invariant
            i <= n,
            n == v0.len(),
            q@ == v0.skip(i as int).reverse(),
            bs@.len() == i,
            forall|k: int| 0 <= k < i ==> (#[trigger] bs@[k])@ == hidden_block(v0[k]@),
        decreases n - i,
    {
        let s = next_block(&mut q, Ghost(v0), Ghost(i as int));
        let sb = s.into_vmf_block();
        let ghost sbt = sb@;
        let mut inner: Vec<VmfBlock> = Vec::new();
        inner.push(sb);
        assert(blocks_tree(inner@) =~= seq![sbt]);
        let b = VmfBlock { name: "hidden".to_string(), key_values: smap_new(), blocks: inner };
        assert(b@.blocks =~= seq![solid_block(v0[i as int]@)]);
        bs.push(b);
        i = i + 1;
    }
    assert(blocks_tree(bs@) =~= solids_view(v0).map_values(|s: SolidView| hidden_block(s)));
    bs
}

/// The block of a group: its ID and other pairs, then its editor data
/// and the other blocks.
pub open spec fn group_block(g: GroupView) -> BlockTree {
    BlockTree {
        name: "group"@,
        kvs: put_all(put(Seq::empty(), "id"@, dec(g.id as nat)), g.extra.0),
        blocks: seq![editor_block(g.editor)] + g.extra.1,
    }
}

impl Group {
    /// The `group` block of the group.
    pub fn into_vmf_block(self) -> (b: VmfBlock)
        ensures
            b@ == group_block(self@),
    {
        let ghost gv = self@;
        let Group { id, editor, extra } = self;
        let mut blocks: Vec<VmfBlock> = Vec::new();
        blocks.push(editor.into_vmf_block());
        add_blocks(&mut blocks, extra.blocks);
        let mut kv = smap_new();
        kv_put(&mut kv, "id", u64_to_string(id as u64));
        smap_extend(&mut kv, extra.key_values);
        let b = VmfBlock { name: "group".to_string(), key_values: kv, blocks };
        assert(b@.blocks =~= group_block(gv).blocks);
        b
    }
}

/// The blocks of groups, in order.
fn groups_into_blocks(v: Vec<Group>) -> (bs: Vec<VmfBlock>)
    ensures
        blocks_tree(bs@) == groups_view(v@).map_values(|g: GroupView| group_block(g)),
{
    let ghost v0 = v@;
    let mut q = into_queue(v);
    let n = q.len();
    let mut bs: Vec<VmfBlock> = Vec::new();
    let mut i: usize = 0;
    while i < n
        invariant
            i <= n,
            n == v0.len(),
            q@ == v0.skip(i as int).reverse(),
            bs@.len() == i,
            forall|k: int| 0 <= k < i ==> (#[trigger] bs@[k])@ == group_block(v0[k]@),
        decreases n - i,
    {
        let g = next_block(&mut q, Ghost(v0), Ghost(i as int));
        bs.push(g.into_vmf_block());
        i = i + 1;
    }
    assert(blocks_tree(bs@) =~= groups_view(v0).map_values(|g: GroupView| group_block(g)));
    bs
}

/// The block of the world: its pairs and the other pairs, then its solids,
/// its hidden solids each in a `hidden` block, its groups and the other
/// blocks.
pub open spec fn world_block(w: WorldView) -> BlockTree {
    BlockTree {
        name: "world"@,
        kvs: put_all(w.key_values, w.extra.0),
        blocks: w.solids.map_values(|s: SolidView| solid_block(s)) + w.hidden.map_values(
            |s: SolidView| hidden_block(s),
        ) + w.groups.map_values(|g: GroupView| group_block(g)) + w.extra.1,
    }
}

impl World {
    /// The `world` block of the world.
    pub fn into_vmf_block(self) -> (b: VmfBlock)
        ensures
            b@ == world_block(self@),
    {
        let ghost wv = self@;
        let World { key_values, solids, hidden, groups, extra } = self;
        let mut blocks = solids_into_blocks(solids);
        add_blocks(&mut blocks, hidden_into_blocks(hidden));
        add_blocks(&mut blocks, groups_into_blocks(groups));
        add_blocks(&mut blocks, extra.blocks);
        let mut kv = key_values;
        smap_extend(&mut kv, extra.key_values);
        let b = VmfBlock { name: "world".to_string(), key_values: kv, blocks };
        assert(b@.blocks =~= world_block(wv).blocks);
        b
    }
}

/// The block of an entity: its pairs and the other pairs, then its
/// connections (where it has any), its solids, its editor data and the
/// other blocks.
pub open spec fn entity_block(e: EntityView) -> BlockTree {
    BlockTree {
        name: "entity"@,
        kvs: put_all(e.key_values, e.extra.0),
        blocks: match e.connections {
            Some(cs) => if cs.len() > 0 {
                seq![BlockTree { name: "connections"@, kvs: pairs_of_conns(cs), blocks: Seq::empty() }]
            } else {
                Seq::empty()
            },
            None => Seq::empty(),
        } + match e.solids {
            Some(ss) => ss.map_values(|s: SolidView| solid_block(s)),
            None => Seq::empty(),
        } + seq![editor_block(e.editor)] + e.extra.1,
    }
}

impl Entity {
    /// The `entity` block of the entity.
    pub fn into_vmf_block(self) -> (b: VmfBlock)
        ensures
            b@ == entity_block(self@),
    {
        let ghost ev = self@;
        let Entity { key_values, connections, solids, editor, is_hidden: _, extra } = self;
        let mut blocks: Vec<VmfBlock> = Vec::new();
        match connections {
            Some(cs) => {
                if cs.len() > 0 {
                    let ckv = Connection::to_key_values(cs.as_slice());
                    let cb = VmfBlock { name: "connections".to_string(), key_values: ckv, blocks: Vec::new() };
                    let ghost cbt = cb@;
                    blocks.push(cb);
                    assert(blocks_tree(blocks@) =~= seq![cbt]);
                }
            },
            None => {},
        }
        let ghost part1 = blocks_tree(blocks@);
        assert(part1 == match ev.connections {
            Some(cs) => if cs.len() > 0 {
                seq![BlockTree { name: "connections"@, kvs: pairs_of_conns(cs), blocks: Seq::empty() }]
            } else {
                Seq::empty()
            },
            None => Seq::<BlockTree>::empty(),
        });
        match solids {
            Some(ss) => add_blocks(&mut blocks, solids_into_blocks(ss)),
            None => {},
        }
        let ghost part2 = blocks_tree(blocks@);
        let eb = editor.into_vmf_block();
        let ghost ebt = eb@;
        blocks.push(eb);
        assert(blocks_tree(blocks@) =~= part2.push(ebt));
        add_blocks(&mut blocks, extra.blocks);
        let mut kv = key_values;
        smap_extend(&mut kv, extra.key_values);
        let b = VmfBlock { name: "entity".to_string(), key_values: kv, blocks };
        assert(b@.blocks =~= entity_block(ev).blocks);
        b
    }
}

/// The block of the version info.
pub open spec fn versioninfo_block(v: VersionInfoView) -> BlockTree {
    let a = put(
        put(put(put(Seq::empty(), "editorversion"@, dec_int(v.editor_version as int)), "editorbuild"@, dec_int(v.editor_build as int)), "mapversion"@, dec_int(v.map_version as int)),
        "formatversion"@,
        dec_int(v.format_version as int),
    );
    BlockTree { name: "versioninfo"@, kvs: put_all(put(a, "prefab"@, bool_text(v.prefab)), v.extra.0), blocks: v.extra.1 }
}

impl VersionInfo {
    /// The `versioninfo` block.
    pub fn into_vmf_block(self) -> (b: VmfBlock)
        ensures
            b@ == versioninfo_block(self@),
    {
        let VersionInfo { editor_version, editor_build, map_version, format_version, prefab, extra } = self;
        let mut kv = smap_new();
        kv_put(&mut kv, "editorversion", i64_to_string(editor_version as i64));
        kv_put(&mut kv, "editorbuild", i64_to_string(editor_build as i64));
        kv_put(&mut kv, "mapversion", i64_to_string(map_version as i64));
        kv_put(&mut kv, "formatversion", i64_to_string(format_version as i64));
        kv_put(&mut kv, "prefab", prefab.to_01_string());
        smap_extend(&mut kv, extra.key_values);
        VmfBlock { name: "versioninfo".to_string(), key_values: kv, blocks: extra.blocks }
    }
}

/// The block of the view settings.
pub open spec fn viewsettings_block(v: ViewSettingsView) -> BlockTree {
    let a = put(
        put(put(put(Seq::empty(), "bSnapToGrid"@, bool_text(v.snap_to_grid)), "bShowGrid"@, bool_text(v.show_grid)), "bShowLogicalGrid"@, bool_text(v.show_logical_grid)),
        "nGridSpacing"@,
        dec(v.grid_spacing as nat),
    );
    BlockTree {
        name: "viewsettings"@,
        kvs: put_all(put(a, "bShow3DGrid"@, bool_text(v.show_3d_grid)), v.extra.0),
        blocks: v.extra.1,
    }
}

impl ViewSettings {
    /// The `viewsettings` block.
    pub fn into_vmf_block(self) -> (b: VmfBlock)
        ensures
            b@ == viewsettings_block(self@),
    {
        let ViewSettings { snap_to_grid, show_grid, show_logical_grid, grid_spacing, show_3d_grid, extra } = self;
        let mut kv = smap_new();
        kv_put(&mut kv, "bSnapToGrid", snap_to_grid.to_01_string());
        kv_put(&mut kv, "bShowGrid", show_grid.to_01_string());
        kv_put(&mut kv, "bShowLogicalGrid", show_logical_grid.to_01_string());
        kv_put(&mut kv, "nGridSpacing", u64_to_string(grid_spacing as u64));
        kv_put(&mut kv, "bShow3DGrid", show_3d_grid.to_01_string());
        smap_extend(&mut kv, extra.key_values);
        VmfBlock { name: "viewsettings".to_string(), key_values: kv, blocks: extra.blocks }
    }
}

/// The block of a camera.
pub open spec fn camera_block(c: CameraView) -> BlockTree {
    BlockTree {
        name: "camera"@,
        kvs: put_all(put(put(Seq::empty(), "position"@, c.position), "look"@, c.look), c.extra.0),
        blocks: c.extra.1,
    }
}

impl Camera {
    /// The `camera` block.
    pub fn into_vmf_block(self) -> (b: VmfBlock)
        ensures
            b@ == camera_block(self@),
    {
        let Camera { position, look, extra } = self;
        let mut kv = smap_new();
        kv_put(&mut kv, "position", position);
        kv_put(&mut kv, "look", look);
        smap_extend(&mut kv, extra.key_values);
        VmfBlock { name: "camera".to_string(), key_values: kv, blocks: extra.blocks }
    }
}

/// The block of the cameras: the active one, the other pairs, then the
/// cameras and the other blocks.
pub open spec fn cameras_block(c: CamerasView) -> BlockTree {
    BlockTree {
        name: "cameras"@,
        kvs: put_all(put(Seq::empty(), "activecamera"@, dec_int(c.active as int)), c.extra.0),
        blocks: c.cams.map_values(|x: CameraView| camera_block(x)) + c.extra.1,
    }
}

impl Cameras {
    /// The `cameras` block.
    pub fn into_vmf_block(self) -> (b: VmfBlock)
        ensures
            b@ == cameras_block(self@),
    {
        let ghost cv = self@;
        let Cameras { active, cams, extra } = self;
        let ghost v0 = cams@;
        let mut q = into_queue(cams);
        let n = q.len();
        let mut blocks: Vec<VmfBlock> = Vec::new();
        let mut i: usize = 0;
        while i < n
            invariant
                i <= n,
                n == v0.len(),
                q@ == v0.skip(i as int).reverse(),
                blocks@.len() == i,
                forall|k: int| 0 <= k < i ==> (#[trigger] blocks@[k])@ == camera_block(v0[k]@),
            decreases n - i,
        {
            let c = next_block(&mut q, Ghost(v0), Ghost(i as int));
            blocks.push(c.into_vmf_block());
            i = i + 1;
        }
        assert(blocks_tree(blocks@) =~= cams_view(v0).map_values(|x: CameraView| camera_block(x)));
        add_blocks(&mut blocks, extra.blocks);
        let mut kv = smap_new();
        kv_put(&mut kv, "activecamera", i64_to_string(active as i64));
        smap_extend(&mut kv, extra.key_values);
        let b = VmfBlock { name: "cameras".to_string(), key_values: kv, blocks };
        assert(b@.blocks =~= cameras_block(cv).blocks);
        b
    }
}

/// The block of a cordon: its name, its flag and the other pairs, then its
/// box and the other blocks.
pub open spec fn cordon_block(c: CordonView) -> BlockTree {
    BlockTree {
        name: "cordon"@,
        kvs: put_all(put(put(Seq::empty(), "name"@, c.name), "active"@, bool_text(c.active)), c.extra.0),
        blocks: seq![
            BlockTree {
                name: "box"@,
                kvs: put(put(Seq::empty(), "mins"@, c.min), "maxs"@, c.max),
                blocks: Seq::empty(),
            },
        ] + c.extra.1,
    }
}

impl Cordon {
    /// The `cordon` block.
    pub fn into_vmf_block(self) -> (b: VmfBlock)
        ensures
            b@ == cordon_block(self@),
    {
        let ghost cv = self@;
        let Cordon { name, active, min, max, extra } = self;
        let mut kv = smap_new();
        kv_put(&mut kv, "name", name);
        kv_put(&mut kv, "active", active.to_01_string());
        smap_extend(&mut kv, extra.key_values);
        let mut bkv = smap_new();
        kv_put(&mut bkv, "mins", min);
        kv_put(&mut bkv, "maxs", max);
        let bx = VmfBlock { name: "box".to_string(), key_values: bkv, blocks: Vec::new() };
        let ghost bxt = bx@;
        let mut blocks: Vec<VmfBlock> = Vec::new();
        blocks.push(bx);
        assert(blocks_tree(blocks@) =~= seq![bxt]);
        add_blocks(&mut blocks, extra.blocks);
        let b = VmfBlock { name: "cordon".to_string(), key_values: kv, blocks };
        assert(b@.blocks =~= cordon_block(cv).blocks);
        b
    }
}

/// The block of the cordons: the active flag and the other pairs, then the
/// cordons and the other blocks.
pub open spec fn cordons_block(c: CordonsView) -> BlockTree {
    BlockTree {
        name: "cordons"@,
        kvs: put_all(put(Seq::empty(), "active"@, dec_int(c.active as int)), c.extra.0),
        blocks: c.cordons.map_values(|x: CordonView| cordon_block(x)) + c.extra.1,
    }
}

impl Cordons {
    /// The `cordons` block.
    pub fn into_vmf_block(self) -> (b: VmfBlock)
        ensures
            b@ == cordons_block(self@),
    {
        let ghost cv = self@;
        let Cordons { active, cordons, extra } = self;
        let ghost v0 = cordons@;
        let mut q = into_queue(cordons);
        let n = q.len();
        let mut blocks: Vec<VmfBlock> = Vec::new();
        let mut i: usize = 0;
        while i < n
            invariant
                i <= n,
                n == v0.len(),
                q@ == v0.skip(i as int).reverse(),
                blocks@.len() == i,
                forall|k: int| 0 <= k < i ==> (#[trigger] blocks@[k])@ == cordon_block(v0[k]@),
            decreases n - i,
        {
            let c = next_block(&mut q, Ghost(v0), Ghost(i as int));
            blocks.push(c.into_vmf_block());
            i = i + 1;
        }
        assert(blocks_tree(blocks@) =~= cordons_view(v0).map_values(|x: CordonView| cordon_block(x)));
        add_blocks(&mut blocks, extra.blocks);
        let mut kv = smap_new();
        kv_put(&mut kv, "active", i64_to_string(active as i64));
        smap_extend(&mut kv, extra.key_values);
        let b = VmfBlock { name: "cordons".to_string(), key_values: kv, blocks };
        assert(b@.blocks =~= cordons_block(cv).blocks);
        b
    }
}

/// The block of a visgroup: its name, ID, color and the other pairs, then
/// its children and the other blocks.
pub open spec fn visgroup_block(g: VisGroupView) -> BlockTree
    decreases g, 0nat,
{
    BlockTree {
        name: "visgroup"@,
        kvs: put_all(put(put(put(Seq::empty(), "name"@, g.name), "visgroupid"@, dec_int(g.id as int)), "color"@, g.color), g.extra.0),
        blocks: match g.children {
            Some(c) => visgroup_blocks(c),
            None => Seq::empty(),
        } + g.extra.1,
    }
}

/// The blocks of visgroups, in order.
pub open spec fn visgroup_blocks(gs: Seq<VisGroupView>) -> Seq<BlockTree>
    decreases gs, 1nat,
{
    if gs.len() == 0 {
        Seq::empty()
    } else {
        visgroup_blocks(gs.drop_last()).push(visgroup_block(gs.last()))
    }
}

proof fn lemma_vg_count_one(gs: Seq<VisGroupView>, i: int)
    requires
        0 <= i < gs.len(),
    ensures
        vg_count(seq![gs[i]]) <= vg_count(gs),
    decreases gs.len(),
{
    let one = seq![gs[i]];
    assert(one.drop_last() =~= Seq::<VisGroupView>::empty());
    assert(one.last() == gs[i]);
    assert(vg_count(one) == vg_count(one.drop_last()) + 1 + match gs[i].children {
        Some(c) => vg_count(c),
        None => 0,
    });
    if i < gs.len() - 1 {
        assert(gs.drop_last()[i] == gs[i]);
        lemma_vg_count_one(gs.drop_last(), i);
    }
}

impl VisGroup {
    /// The `visgroup` block, with the blocks of its children.
    pub fn into_vmf_block(self) -> (b: VmfBlock)
        ensures
            b@ == visgroup_block(self@),
        decreases vg_count(seq![self@]), 0nat,
    {
        let ghost gv = self@;
        let VisGroup { name, id, color, children, extra } = self;
        let mut kv = smap_new();
        kv_put(&mut kv, "name", name);
        kv_put(&mut kv, "visgroupid", i64_to_string(id as i64));
        kv_put(&mut kv, "color", color);
        smap_extend(&mut kv, extra.key_values);
        let mut blocks: Vec<VmfBlock> = Vec::new();
        match children {
            Some(c) => {
                proof {
                    assert(seq![gv].drop_last() =~= Seq::<VisGroupView>::empty());
                }
                blocks = visgroups_into_blocks(c);
            },
            None => {},
        }
        add_blocks(&mut blocks, extra.blocks);
        let b = VmfBlock { name: "visgroup".to_string(), key_values: kv, blocks };
        assert(b@.blocks =~= visgroup_block(gv).blocks);
        b
    }
}

/// The blocks of visgroups with their children, in order.
fn visgroups_into_blocks(v: Vec<VisGroup>) -> (bs: Vec<VmfBlock>)
    ensures
        blocks_tree(bs@) == visgroup_blocks(vgs_view(v@)),
    decreases vg_count(vgs_view(v@)), 1nat,
{
    let ghost v0 = v@;
    let ghost gv = vgs_view(v0);
    proof {
        lemma_vgs_view(v0);
    }
    let mut q = into_queue(v);
    let n = q.len();
    let mut bs: Vec<VmfBlock> = Vec::new();
    let mut i: usize = 0;
    assert(gv.take(0) =~= Seq::<VisGroupView>::empty());
    while i < n
        invariant
            i <= n,
            n == v0.len(),
            gv == vgs_view(v0),
            v0 == v@,
            gv.len() == v0.len(),
            forall|j: int| 0 <= j < gv.len() ==> gv[j] == vg_view(v0[j]),
            q@ == v0.skip(i as int).reverse(),
            blocks_tree(bs@) == visgroup_blocks(gv.take(i as int)),
        decreases n - i,
    {
        let g = next_block(&mut q, Ghost(v0), Ghost(i as int));
        proof {
            lemma_vg_count_one(gv, i as int);
            assert(seq![g@] == seq![gv[i as int]]);
        }
        let gb = g.into_vmf_block();
        let ghost b0 = blocks_tree(bs@);
        bs.push(gb);
        assert(gv.take(i + 1).drop_last() =~= gv.take(i as int));
        assert(blocks_tree(bs@) =~= b0.push(gb@));
        i = i + 1;
    }
    assert(gv.take(n as int) =~= gv);
    bs
}

/// The block of the visgroups: their other pairs, then the visgroups and
/// the other blocks.
pub open spec fn visgroups_block(v: VisGroupsView) -> BlockTree {
    BlockTree { name: "visgroups"@, kvs: v.extra.0, blocks: visgroup_blocks(v.groups) + v.extra.1 }
}

impl VisGroups {
    /// The `visgroups` block.
    pub fn into_vmf_block(self) -> (b: VmfBlock)
        ensures
            b@ == visgroups_block(self@),
    {
        let ghost vv = self@;
        let VisGroups { groups, extra } = self;
        let mut blocks = visgroups_into_blocks(groups);
        add_blocks(&mut blocks, extra.blocks);
        let b = VmfBlock { name: "visgroups".to_string(), key_values: extra.key_values, blocks };
        assert(b@.blocks =~= visgroups_block(vv).blocks);
        b
    }
}

impl World {
    /// Reads a block with a parser context of its own; the problems met
    /// are not kept. Never fails.
    pub fn try_from(block: VmfBlock) -> (r: Result<Self, VmfError>)
        ensures
            r is Ok && r->Ok_0@ == world_of(block@),
    {
        let mut ctx = ParseCtx::new();
        Ok(World::from_block(block, &mut ctx))
    }
}

impl Solid {
    /// Reads a block with a parser context of its own; the problems met
    /// are not kept. Never fails.
    pub fn try_from(block: VmfBlock) -> (r: Result<Self, VmfError>)
        ensures
            r is Ok && r->Ok_0@ == solid_of(block@),
    {
        let mut ctx = ParseCtx::new();
        Ok(Solid::from_block(block, &mut ctx))
    }
}

impl Side {
    /// Reads a block with a parser context of its own; the problems met
    /// are not kept. Never fails.
    pub fn try_from(block: VmfBlock) -> (r: Result<Self, VmfError>)
        ensures
            r is Ok && r->Ok_0@ == side_of(block@),
    {
        let mut ctx = ParseCtx::new();
        Ok(Side::from_block(block, &mut ctx))
    }
}

impl DispInfo {
    /// Reads a block with a parser context of its own; the problems met
    /// are not kept. Never fails.
    pub fn try_from(block: VmfBlock) -> (r: Result<Self, VmfError>)
        ensures
            r is Ok && r->Ok_0@ == dispinfo_of(block@),
    {
        let mut ctx = ParseCtx::new();
        Ok(DispInfo::from_block(block, &mut ctx))
    }
}

impl Group {
    /// Reads a block with a parser context of its own; the problems met
    /// are not kept. Never fails.
    pub fn try_from(block: VmfBlock) -> (r: Result<Self, VmfError>)
        ensures
            r is Ok && r->Ok_0@ == group_of(block@),
    {
        let mut ctx = ParseCtx::new();
        Ok(Group::from_block(block, &mut ctx))
    }
}

impl Entity {
    /// Reads a block with a parser context of its own; the problems met
    /// are not kept. Never fails.
    pub fn try_from(block: VmfBlock) -> (r: Result<Self, VmfError>)
        ensures
            r is Ok && r->Ok_0@ == entity_of(block@),
    {
        let mut ctx = ParseCtx::new();
        Ok(Entity::from_block(block, &mut ctx))
    }
}

impl Editor {
    /// Reads a block with a parser context of its own; the problems met
    /// are not kept. Never fails.
    pub fn try_from(block: VmfBlock) -> (r: Result<Self, VmfError>)
        ensures
            r is Ok && r->Ok_0@ == editor_of(block@),
    {
        let mut ctx = ParseCtx::new();
        Ok(Editor::from_block(block, &mut ctx))
    }
}

impl VersionInfo {
    /// Reads a block with a parser context of its own; the problems met
    /// are not kept. Never fails.
    pub fn try_from(block: VmfBlock) -> (r: Result<Self, VmfError>)
        ensures
            r is Ok && r->Ok_0@ == versioninfo_of(block@),
    {
        let mut ctx = ParseCtx::new();
        Ok(VersionInfo::from_block(block, &mut ctx))
    }
}

impl ViewSettings {
    /// Reads a block with a parser context of its own; the problems met
    /// are not kept. Never fails.
    pub fn try_from(block: VmfBlock) -> (r: Result<Self, VmfError>)
        ensures
            r is Ok && r->Ok_0@ == viewsettings_of(block@),
    {
        let mut ctx = ParseCtx::new();
        Ok(ViewSettings::from_block(block, &mut ctx))
    }
}

impl VisGroups {
    /// Reads a block with a parser context of its own; the problems met
    /// are not kept. Never fails.
    pub fn try_from(block: VmfBlock) -> (r: Result<Self, VmfError>)
        ensures
            r is Ok && r->Ok_0@ == visgroups_of(block@),
    {
        let mut ctx = ParseCtx::new();
        Ok(VisGroups::from_block(block, &mut ctx))
    }
}

impl VisGroup {
    /// Reads a block with a parser context of its own; the problems met
    /// are not kept. Never fails.
    pub fn try_from(block: VmfBlock) -> (r: Result<Self, VmfError>)
        ensures
            r is Ok && r->Ok_0@ == visgroup_of(block@),
    {
        let mut ctx = ParseCtx::new();
        Ok(VisGroup::from_block(block, &mut ctx))
    }
}

impl Cameras {
    /// Reads a block with a parser context of its own; the problems met
    /// are not kept. Never fails.
    pub fn try_from(block: VmfBlock) -> (r: Result<Self, VmfError>)
        ensures
            r is Ok && r->Ok_0@ == cameras_of(block@),
    {
        let mut ctx = ParseCtx::new();
        Ok(Cameras::from_block(block, &mut ctx))
    }
}

impl Camera {
    /// Reads a block with a parser context of its own; the problems met
    /// are not kept. Never fails.
    pub fn try_from(block: VmfBlock) -> (r: Result<Self, VmfError>)
        ensures
            r is Ok && r->Ok_0@ == camera_of(block@),
    {
        let mut ctx = ParseCtx::new();
        Ok(Camera::from_block(block, &mut ctx))
    }
}

impl Cordons {
    /// Reads a block with a parser context of its own; the problems met
    /// are not kept. Never fails.
    pub fn try_from(block: VmfBlock) -> (r: Result<Self, VmfError>)
        ensures
            r is Ok && r->Ok_0@ == cordons_of(block@),
    {
        let mut ctx = ParseCtx::new();
        Ok(Cordons::from_block(block, &mut ctx))
    }
}

impl Cordon {
    /// Reads a block with a parser context of its own; the problems met
    /// are not kept. Never fails.
    pub fn try_from(block: VmfBlock) -> (r: Result<Self, VmfError>)
        ensures
            r is Ok && r->Ok_0@ == cordon_of(block@),
    {
        let mut ctx = ParseCtx::new();
        Ok(Cordon::from_block(block, &mut ctx))
    }
}

impl DispRows {
    /// Reads a rows block with a parser context of its own; the problems
    /// met are not kept. Never fails.
    pub fn try_from(block: VmfBlock) -> (r: Result<Self, VmfError>)
        ensures
            r is Ok && texts(r->Ok_0.rows@) == rows_of(block@.kvs),
    {
        let mut ctx = ParseCtx::new();
        Ok(DispRows::from_block(block, &mut ctx))
    }
}


/// Blocks not named `connections` leave the connections an entity reads
/// as they were.
proof fn lemma_connections_kept(a: Seq<BlockTree>, b: Seq<BlockTree>)
    requires
        forall|i: int| 0 <= i < b.len() ==> !named(#[trigger] b[i], "connections"@),
    ensures
        entity_blocks(a + b).connections == entity_blocks(a).connections,
    decreases b.len(),
{
    if b.len() == 0 {
        assert(a + b =~= a);
    } else {
        let bd = b.drop_last();
        assert forall|i: int| 0 <= i < bd.len() implies !named(#[trigger] bd[i], "connections"@) by {
            assert(bd[i] == b[i]);
        }
        lemma_connections_kept(a, bd);
        assert((a + b).drop_last() =~= a + bd);
        assert((a + b).last() == b[b.len() - 1]);
    }
}

/// An entity written as an `entity` block reads back with the same pairs
/// and the same connections (none where it has none to write), where its
/// connections stand grouped by output, each is written without the
/// separator of repeated keys and reads back from its value as itself, and
/// none of its other blocks is named `connections`.
pub proof fn lemma_entity_block_trip(e: EntityView)
    requires
        e.connections matches Some(cs) ==> grouped(cs) && forall|i: int|
            0 <= i < cs.len() ==> writable(#[trigger] cs[i]),
        forall|i: int| 0 <= i < e.extra.1.len() ==> !named(#[trigger] e.extra.1[i], "connections"@),
    ensures
        entity_of(entity_block(e)).key_values == put_all(e.key_values, e.extra.0),
        entity_of(entity_block(e)).connections == match e.connections {
            Some(cs) => if cs.len() > 0 {
                Some(cs)
            } else {
                None
            },
            None => None,
        },
{
    reveal(entity_of);
    reveal_strlit("connections");
    reveal_strlit("solid");
    reveal_strlit("editor");
    let b = entity_block(e);
    let head: Seq<BlockTree> = match e.connections {
        Some(cs) => if cs.len() > 0 {
            seq![BlockTree { name: "connections"@, kvs: pairs_of_conns(cs), blocks: Seq::empty() }]
        } else {
            Seq::empty()
        },
        None => Seq::empty(),
    };
    let sols: Seq<BlockTree> = match e.solids {
        Some(ss) => ss.map_values(|s: SolidView| solid_block(s)),
        None => Seq::empty(),
    };
    let rest = sols + seq![editor_block(e.editor)] + e.extra.1;
    assert(b.blocks =~= head + rest);
    assert forall|i: int| 0 <= i < rest.len() implies !named(#[trigger] rest[i], "connections"@) by {
        if i < sols.len() {
            assert(rest[i] == sols[i]);
            assert(rest[i].name == "solid"@);
        } else if i == sols.len() {
            assert(rest[i] == editor_block(e.editor));
            assert(rest[i].name == "editor"@);
        } else {
            assert(rest[i] == e.extra.1[i - sols.len() - 1]);
        }
    }
    lemma_connections_kept(head, rest);
    match e.connections {
        Some(cs) => {
            if cs.len() > 0 {
                lemma_key_values_round_trip(cs);
                let cb = head[0];
                assert(head.drop_last() =~= Seq::<BlockTree>::empty());
                assert(named(cb, "connections"@));
                assert(entity_blocks(head).connections == conns_of_block(pairs_of_conns(cs)));
            }
        },
        None => {},
    }
}

} // verus!
