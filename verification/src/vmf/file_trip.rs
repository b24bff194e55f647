//! Reading back what is written, for the parts of a map file around its
//! entities: the version info, view settings, cameras, cordons, visgroups,
//! the world and its groups.

use vstd::prelude::*;
use crate::text::{dec, dec_int, eq_ic, lemma_dec_int_reads_back, lemma_dec_reads_back, lower_ascii};
use crate::vmf::block::BlockTree;
use crate::vmf::convert::{camera_block, cameras_block, cordon_block, cordons_block, entity_block, visgroup_block,
    visgroup_blocks, visgroups_block, editor_block, group_block, hidden_block, solid_block, versioninfo_block,
    viewsettings_block, world_block};
use crate::vmf::common::{default_editor, editor_of};
use crate::vmf::typed::named;
use crate::vmf::entities::{EntityView, entity_of};
use crate::vmf::file::{VmfParts, empty_parts, hidden_entities, vmf_fold, vmf_step};
use crate::vmf::round_trip::{entity_writable, lemma_entity_trip};
use crate::vmf::visgroups::{VisGroupView, VisGroupsView, vg_blocks, visgroup_of, visgroups_of};
use crate::vmf::world::{GroupView, SolidView, WorldParts, WorldView, group_blocks, group_of, solids_of, world_blocks, world_of,
    world_step};
use crate::vmf::metadata::{VersionInfoView, ViewSettingsView, versioninfo_of, viewsettings_of};
use crate::vmf::regions::{CameraView, CamerasView, CordonView, CordonsView, cam_blocks, camera_of, cameras_of, cordon_blocks,
    cordon_of, cordons_of, kept_blocks};
use crate::vmf::round_trip::{distinct_ic, editor_keys, editor_writable, flat, free_pairs, keyed, lemma_editor_trip, lemma_flat_emptied,
    lemma_put_extra, lemma_put_piece, lemma_solid_trip, lemma_take_piece, opt_pair, solid_writable};
use crate::vmf::utils::{Pairs, bool_text, lemma_bool_text_reads_back, taken};

verus! {

/// The keys version info is read from, in the order they are written.
pub open spec fn versioninfo_keys() -> Seq<Seq<char>> {
    seq!["editorversion"@, "editorbuild"@, "mapversion"@, "formatversion"@, "prefab"@]
}

/// The pairs version info is written as before its other pairs.
pub open spec fn versioninfo_pieces(v: VersionInfoView) -> Seq<Pairs> {
    let ks = versioninfo_keys();
    seq![
        seq![(ks[0], dec_int(v.editor_version as int))],
        seq![(ks[1], dec_int(v.editor_build as int))],
        seq![(ks[2], dec_int(v.map_version as int))],
        seq![(ks[3], dec_int(v.format_version as int))],
        seq![(ks[4], bool_text(v.prefab))],
    ]
}

proof fn lemma_versioninfo_keys_differ()
    ensures
        distinct_ic(versioninfo_keys()),
{
    reveal(distinct_ic);
    reveal_strlit("editorversion");
    reveal_strlit("editorbuild");
    reveal_strlit("mapversion");
    reveal_strlit("formatversion");
    reveal_strlit("prefab");
    let ks = versioninfo_keys();
    assert forall|a: int, b: int| 0 <= a < 5 && 0 <= b < 5 && a != b && ks[a].len() == ks[b].len() implies !eq_ic(
        #[trigger] ks[a],
        #[trigger] ks[b],
    ) by {
        assert(lower_ascii(ks[a][0]) != lower_ascii(ks[b][0]));
    }
}

/// Five keyed pieces, each holding one pair, taken in order from the pairs
/// they are written as before free pairs.
#[verifier::spinoff_prover]
proof fn lemma_take_five(cs: Seq<Pairs>, ks: Seq<Seq<char>>, x: Pairs)
    requires
        cs.len() == 5,
        ks.len() == 5,
        forall|i: int| 0 <= i < 5 ==> (#[trigger] cs[i]).len() == 1,
        keyed(cs, ks),
        distinct_ic(ks),
        free_pairs(x, ks),
    ensures
        ({
            let c1 = cs.update(0, Seq::empty());
            let c2 = c1.update(1, Seq::empty());
            let c3 = c2.update(2, Seq::empty());
            let c4 = c3.update(3, Seq::empty());
            &&& taken(flat(cs) + x, ks[0]) == (if cs[0].len() > 0 { Some(cs[0][0].1) } else { None }, flat(c1) + x)
            &&& taken(flat(c1) + x, ks[1]) == (if cs[1].len() > 0 { Some(cs[1][0].1) } else { None }, flat(c2) + x)
            &&& taken(flat(c2) + x, ks[2]) == (if cs[2].len() > 0 { Some(cs[2][0].1) } else { None }, flat(c3) + x)
            &&& taken(flat(c3) + x, ks[3]) == (if cs[3].len() > 0 { Some(cs[3][0].1) } else { None }, flat(c4) + x)
            &&& taken(flat(c4) + x, ks[4]) == (if cs[4].len() > 0 { Some(cs[4][0].1) } else { None }, x)
        }),
{
    let c1 = cs.update(0, Seq::empty());
    let c2 = c1.update(1, Seq::empty());
    let c3 = c2.update(2, Seq::empty());
    let c4 = c3.update(3, Seq::empty());
    let c5 = c4.update(4, Seq::empty());
    assert(cs[0].len() == 1 && c1[1].len() == 1 && c2[2].len() == 1 && c3[3].len() == 1 && c4[4].len() == 1);
    lemma_take_piece(cs, ks, x, 0);
    lemma_take_piece(c1, ks, x, 1);
    lemma_take_piece(c2, ks, x, 2);
    lemma_take_piece(c3, ks, x, 3);
    lemma_take_piece(c4, ks, x, 4);
    assert forall|m: int| 0 <= m < c5.len() implies (#[trigger] c5[m]).len() == 0 by {}
    lemma_flat_emptied(c5);
    assert(flat(c5) + x =~= x);
    assert(c1[1] == cs[1] && c2[2] == cs[2] && c3[3] == cs[3] && c4[4] == cs[4]);
}

/// Five keyed pieces, each holding one pair, are written in order, then the
/// free pairs.
proof fn lemma_write_five(cs: Seq<Pairs>, ks: Seq<Seq<char>>, x: Pairs)
    requires
        cs.len() == 5,
        ks.len() == 5,
        keyed(cs, ks),
        distinct_ic(ks),
        free_pairs(x, ks),
        forall|i: int| 0 <= i < 5 ==> (#[trigger] cs[i]).len() == 1,
    ensures
        crate::ordmap::put_all(
            crate::ordmap::put(
                crate::ordmap::put(
                    crate::ordmap::put(
                        crate::ordmap::put(
                            crate::ordmap::put(Seq::empty(), ks[0], cs[0][0].1),
                            ks[1],
                            cs[1][0].1,
                        ),
                        ks[2],
                        cs[2][0].1,
                    ),
                    ks[3],
                    cs[3][0].1,
                ),
                ks[4],
                cs[4][0].1,
            ),
            x,
        ) == flat(cs) + x,
{
    reveal(keyed);
    assert forall|i: int| 0 <= i < 5 implies cs[i] == crate::vmf::round_trip::opt_pair(ks[i], Some(cs[i][0].1)) by {
        assert(cs[i][0].0 == ks[i]);
        assert(cs[i] =~= seq![(ks[i], cs[i][0].1)]);
    }
    assert(cs.take(0) =~= Seq::<Pairs>::empty());
    lemma_put_piece(cs, ks, 0, Some(cs[0][0].1));
    lemma_put_piece(cs, ks, 1, Some(cs[1][0].1));
    lemma_put_piece(cs, ks, 2, Some(cs[2][0].1));
    lemma_put_piece(cs, ks, 3, Some(cs[3][0].1));
    lemma_put_piece(cs, ks, 4, Some(cs[4][0].1));
    assert(cs.take(5) =~= cs);
    lemma_put_extra(cs, ks, x);
}

/// Version info written as a `versioninfo` block reads back from it as
/// itself, where its other pairs are free of the keys it is read from.
pub proof fn lemma_versioninfo_trip(v: VersionInfoView)
    requires
        free_pairs(v.extra.0, versioninfo_keys()),
    ensures
        versioninfo_of(versioninfo_block(v)) == v,
{
    reveal(keyed);
    lemma_versioninfo_keys_differ();
    let ks = versioninfo_keys();
    let cs = versioninfo_pieces(v);
    assert(keyed(cs, ks));
    lemma_write_five(cs, ks, v.extra.0);
    lemma_take_five(cs, ks, v.extra.0);
    lemma_dec_int_reads_back(v.editor_version as int, i32::MIN as int, i32::MAX as int);
    lemma_dec_int_reads_back(v.editor_build as int, i32::MIN as int, i32::MAX as int);
    lemma_dec_int_reads_back(v.map_version as int, i32::MIN as int, i32::MAX as int);
    lemma_dec_int_reads_back(v.format_version as int, i32::MIN as int, i32::MAX as int);
    lemma_bool_text_reads_back(v.prefab);
    reveal(versioninfo_of);
    let r = versioninfo_of(versioninfo_block(v));
    assert(r.editor_version == v.editor_version);
    assert(r.editor_build == v.editor_build);
    assert(r.map_version == v.map_version);
    assert(r.format_version == v.format_version);
    assert(r.prefab == v.prefab);
    assert(r.extra == v.extra);
}

/// The keys view settings are read from, in the order they are written.
pub open spec fn viewsettings_keys() -> Seq<Seq<char>> {
    seq!["bSnapToGrid"@, "bShowGrid"@, "bShowLogicalGrid"@, "nGridSpacing"@, "bShow3DGrid"@]
}

/// The pairs view settings are written as before their other pairs.
pub open spec fn viewsettings_pieces(v: ViewSettingsView) -> Seq<Pairs> {
    let ks = viewsettings_keys();
    seq![
        seq![(ks[0], bool_text(v.snap_to_grid))],
        seq![(ks[1], bool_text(v.show_grid))],
        seq![(ks[2], bool_text(v.show_logical_grid))],
        seq![(ks[3], dec(v.grid_spacing as nat))],
        seq![(ks[4], bool_text(v.show_3d_grid))],
    ]
}

proof fn lemma_viewsettings_keys_differ()
    ensures
        distinct_ic(viewsettings_keys()),
{
    reveal(distinct_ic);
    reveal_strlit("bSnapToGrid");
    reveal_strlit("bShowGrid");
    reveal_strlit("bShowLogicalGrid");
    reveal_strlit("nGridSpacing");
    reveal_strlit("bShow3DGrid");
    let ks = viewsettings_keys();
    assert(lower_ascii(ks[0][2]) != lower_ascii(ks[4][2]));
    assert(!eq_ic(ks[0], ks[4]) && !eq_ic(ks[4], ks[0]));
}

/// View settings written as a `viewsettings` block read back from it as
/// themselves, where their other pairs are free of the keys they are read
/// from.
pub proof fn lemma_viewsettings_trip(v: ViewSettingsView)
    requires
        free_pairs(v.extra.0, viewsettings_keys()),
    ensures
        viewsettings_of(viewsettings_block(v)) == v,
{
    reveal(keyed);
    lemma_viewsettings_keys_differ();
    let ks = viewsettings_keys();
    let cs = viewsettings_pieces(v);
    assert(keyed(cs, ks));
    lemma_write_five(cs, ks, v.extra.0);
    lemma_take_five(cs, ks, v.extra.0);
    lemma_bool_text_reads_back(v.snap_to_grid);
    lemma_bool_text_reads_back(v.show_grid);
    lemma_bool_text_reads_back(v.show_logical_grid);
    lemma_dec_reads_back(v.grid_spacing as nat, u16::MAX as int);
    lemma_bool_text_reads_back(v.show_3d_grid);
    reveal(viewsettings_of);
    let r = viewsettings_of(viewsettings_block(v));
    assert(r.snap_to_grid == v.snap_to_grid);
    assert(r.show_grid == v.show_grid);
    assert(r.show_logical_grid == v.show_logical_grid);
    assert(r.grid_spacing == v.grid_spacing);
    assert(r.show_3d_grid == v.show_3d_grid);
    assert(r.extra == v.extra);
}

/// One keyed piece holding one pair, written then taken before free pairs.
proof fn lemma_one_pair(k: Seq<char>, v: Seq<char>, x: Pairs)
    requires
        free_pairs(x, seq![k]),
    ensures
        crate::ordmap::put_all(crate::ordmap::put(Seq::empty(), k, v), x) == seq![(k, v)] + x,
        taken(seq![(k, v)] + x, k) == (Some(v), x),
{
    reveal(keyed);
    reveal(distinct_ic);
    let ks = seq![k];
    let cs = seq![seq![(k, v)]];
    assert(keyed(cs, ks));
    assert(cs.take(0) =~= Seq::<Pairs>::empty());
    assert(cs[0] == opt_pair(ks[0], Some(v)));
    lemma_put_piece(cs, ks, 0, Some(v));
    assert(cs.take(1) =~= cs);
    lemma_put_extra(cs, ks, x);
    lemma_take_piece(cs, ks, x, 0);
    let c1 = cs.update(0, Seq::empty());
    assert forall|m: int| 0 <= m < c1.len() implies (#[trigger] c1[m]).len() == 0 by {}
    lemma_flat_emptied(c1);
    assert(flat(c1) + x =~= x);
    assert(flat(cs) =~= seq![(k, v)]) by {
        assert(cs.drop_last() =~= Seq::<Pairs>::empty());
        assert(Seq::<(Seq<char>, Seq<char>)>::empty() + seq![(k, v)] =~= seq![(k, v)]);
    }
}

/// A camera written as a `camera` block reads back from it as itself, where
/// its other pairs are free of the keys `position` and `look`.
pub proof fn lemma_camera_trip(c: CameraView)
    requires
        free_pairs(c.extra.0, seq!["position"@, "look"@]),
    ensures
        camera_of(camera_block(c)) == c,
{
    reveal(keyed);
    reveal(distinct_ic);
    reveal_strlit("position");
    reveal_strlit("look");
    let ks = seq!["position"@, "look"@];
    let cs = seq![seq![(ks[0], c.position)], seq![(ks[1], c.look)]];
    let x = c.extra.0;
    assert(keyed(cs, ks));
    assert(distinct_ic(ks));
    assert(cs.take(0) =~= Seq::<Pairs>::empty());
    assert(cs[0] == opt_pair(ks[0], Some(c.position)));
    assert(cs[1] == opt_pair(ks[1], Some(c.look)));
    lemma_put_piece(cs, ks, 0, Some(c.position));
    lemma_put_piece(cs, ks, 1, Some(c.look));
    assert(cs.take(2) =~= cs);
    lemma_put_extra(cs, ks, x);
    let c1 = cs.update(0, Seq::empty());
    let c2 = c1.update(1, Seq::empty());
    lemma_take_piece(cs, ks, x, 0);
    lemma_take_piece(c1, ks, x, 1);
    assert(c1[1] == cs[1]);
    assert forall|m: int| 0 <= m < c2.len() implies (#[trigger] c2[m]).len() == 0 by {}
    lemma_flat_emptied(c2);
    assert(flat(c2) + x =~= x);
    reveal(camera_of);
}

/// Camera blocks are read as the cameras they were written from, before
/// blocks not named `camera`.
proof fn lemma_cam_blocks(cams: Seq<CameraView>, x: Seq<BlockTree>)
    requires
        forall|i: int| 0 <= i < cams.len() ==> free_pairs((#[trigger] cams[i]).extra.0, seq!["position"@, "look"@]),
        forall|i: int| 0 <= i < x.len() ==> !named(#[trigger] x[i], "camera"@),
    ensures
        cam_blocks(cams.map_values(|c: CameraView| camera_block(c)) + x) == (cams, x),
    decreases cams.len() + x.len(),
{
    let bs = cams.map_values(|c: CameraView| camera_block(c));
    if x.len() > 0 {
        let xd = x.drop_last();
        assert forall|i: int| 0 <= i < xd.len() implies !named(#[trigger] xd[i], "camera"@) by {
            assert(xd[i] == x[i]);
        }
        lemma_cam_blocks(cams, xd);
        assert((bs + x).drop_last() =~= bs + xd);
        assert((bs + x).last() == x[x.len() - 1]);
        assert(xd.push(x.last()) =~= x);
    } else if cams.len() > 0 {
        let d = cams.drop_last();
        assert forall|i: int| 0 <= i < d.len() implies free_pairs((#[trigger] d[i]).extra.0, seq!["position"@, "look"@]) by {
            assert(d[i] == cams[i]);
        }
        lemma_cam_blocks(d, x);
        assert(bs + x =~= bs);
        let bd = d.map_values(|c: CameraView| camera_block(c));
        assert(bd + x =~= bd);
        assert(bs.drop_last() =~= bd);
        reveal_strlit("camera");
        assert(named(bs.last(), "camera"@));
        assert(free_pairs(cams[cams.len() - 1].extra.0, seq!["position"@, "look"@]));
        lemma_camera_trip(cams.last());
        assert(d.push(cams.last()) =~= cams);
    } else {
        assert(bs + x =~= Seq::<BlockTree>::empty());
        assert(cams =~= Seq::<CameraView>::empty());
        assert(x =~= Seq::<BlockTree>::empty());
    }
}

/// Cameras written as a `cameras` block read back from it as themselves,
/// where their other pairs have no `activecamera` key, their other blocks
/// are not named `camera`, and each camera's other pairs are free of the
/// keys `position` and `look`.
pub proof fn lemma_cameras_trip(c: CamerasView)
    requires
        free_pairs(c.extra.0, seq!["activecamera"@]),
        forall|i: int| 0 <= i < c.extra.1.len() ==> !named(#[trigger] c.extra.1[i], "camera"@),
        forall|i: int| 0 <= i < c.cams.len() ==> free_pairs((#[trigger] c.cams[i]).extra.0, seq!["position"@, "look"@]),
    ensures
        cameras_of(cameras_block(c)) == c,
{
    lemma_one_pair("activecamera"@, dec_int(c.active as int), c.extra.0);
    lemma_cam_blocks(c.cams, c.extra.1);
    lemma_dec_int_reads_back(c.active as int, i8::MIN as int, i8::MAX as int);
    reveal(cameras_of);
}

/// A group that its block carries and reads back unchanged: its other
/// pairs have no `id` key, its other blocks are not named `editor`, and its
/// editor data has no other pair under a key editor data is read from.
pub open spec fn group_writable(g: GroupView) -> bool {
    &&& free_pairs(g.extra.0, seq!["id"@])
    &&& forall|i: int| 0 <= i < g.extra.1.len() ==> !named(#[trigger] g.extra.1[i], "editor"@)
    &&& editor_writable(g.editor)
}

/// A group written as a `group` block reads back from it as itself, where
/// the block carries it unchanged (see [`group_writable`]).
pub proof fn lemma_group_trip(g: GroupView)
    requires
        group_writable(g),
    ensures
        group_of(group_block(g)) == g,
{
    lemma_one_pair("id"@, dec(g.id as nat), g.extra.0);
    lemma_dec_reads_back(g.id as nat, u32::MAX as int);
    lemma_editor_trip(g.editor);
    lemma_group_blocks_plain(seq![editor_block(g.editor)], g.extra.1);
    reveal_strlit("editor");
    assert(seq![editor_block(g.editor)].drop_last() =~= Seq::<BlockTree>::empty());
    assert(named(editor_block(g.editor), "editor"@));
    assert(group_blocks(Seq::<BlockTree>::empty()) == (default_editor(), Seq::<BlockTree>::empty()));
    assert(seq![editor_block(g.editor)].last() == editor_block(g.editor));
    assert(group_blocks(seq![editor_block(g.editor)]) == (editor_of(editor_block(g.editor)), Seq::<BlockTree>::empty()));
    assert(Seq::<BlockTree>::empty() + g.extra.1 =~= g.extra.1);
    reveal(group_of);
}

/// Blocks not named `editor` after others are kept as other blocks of a
/// group.
proof fn lemma_group_blocks_plain(a: Seq<BlockTree>, b: Seq<BlockTree>)
    requires
        forall|i: int| 0 <= i < b.len() ==> !named(#[trigger] b[i], "editor"@),
    ensures
        group_blocks(a + b) == (group_blocks(a).0, group_blocks(a).1 + b),
    decreases b.len(),
{
    if b.len() == 0 {
        assert(a + b =~= a);
        assert(group_blocks(a).1 + b =~= group_blocks(a).1);
    } else {
        let bd = b.drop_last();
        assert forall|i: int| 0 <= i < bd.len() implies !named(#[trigger] bd[i], "editor"@) by {
            assert(bd[i] == b[i]);
        }
        lemma_group_blocks_plain(a, bd);
        assert((a + b).drop_last() =~= a + bd);
        assert((a + b).last() == b[b.len() - 1]);
        assert((group_blocks(a).1 + bd).push(b.last()) =~= group_blocks(a).1 + b);
    }
}

/// Whether a block bears one of the names the world reads its parts from.
pub open spec fn world_part(b: BlockTree) -> bool {
    named(b, "solid"@) || named(b, "group"@) || named(b, "hidden"@)
}

/// A world that its block carries and reads back unchanged: it has no pairs
/// beside its pairs, its solids, hidden solids and groups are carried
/// unchanged, and none of its other blocks bears the name of a part of the
/// world.
pub open spec fn world_writable(w: WorldView) -> bool {
    &&& w.extra.0.len() == 0
    &&& forall|i: int| 0 <= i < w.solids.len() ==> solid_writable(#[trigger] w.solids[i])
    &&& forall|i: int| 0 <= i < w.hidden.len() ==> solid_writable(#[trigger] w.hidden[i])
    &&& forall|i: int| 0 <= i < w.groups.len() ==> group_writable(#[trigger] w.groups[i])
    &&& forall|i: int| 0 <= i < w.extra.1.len() ==> !world_part(#[trigger] w.extra.1[i])
}

proof fn lemma_world_names()
    ensures
        named(BlockTree { name: "solid"@, kvs: Seq::empty(), blocks: Seq::empty() }, "solid"@),
        !eq_ic("solid"@, "group"@) && !eq_ic("solid"@, "hidden"@) && !eq_ic("group"@, "solid"@),
        !eq_ic("group"@, "hidden"@) && !eq_ic("hidden"@, "solid"@) && !eq_ic("hidden"@, "group"@),
{
    reveal_strlit("solid");
    reveal_strlit("group");
    reveal_strlit("hidden");
    assert(lower_ascii("solid"@[0]) != lower_ascii("group"@[0]));
    assert(lower_ascii("group"@[0]) != lower_ascii("solid"@[0]));
}

/// Solid blocks are read as the solids of the world they were written from.
proof fn lemma_world_solids(a: Seq<BlockTree>, ss: Seq<SolidView>)
    requires
        forall|i: int| 0 <= i < ss.len() ==> solid_writable(#[trigger] ss[i]),
    ensures
        world_blocks(a + ss.map_values(|x: SolidView| solid_block(x))) == (WorldParts {
            solids: world_blocks(a).solids + ss,
            ..world_blocks(a)
        }),
    decreases ss.len(),
{
    let bs = ss.map_values(|x: SolidView| solid_block(x));
    if ss.len() == 0 {
        assert(a + bs =~= a);
        assert(world_blocks(a).solids + ss =~= world_blocks(a).solids);
        assert(world_blocks(a) == (WorldParts { solids: world_blocks(a).solids + ss, ..world_blocks(a) }));
    } else {
        let d = ss.drop_last();
        assert forall|i: int| 0 <= i < d.len() implies solid_writable(#[trigger] d[i]) by {
            assert(d[i] == ss[i]);
        }
        lemma_world_solids(a, d);
        let bd = d.map_values(|x: SolidView| solid_block(x));
        assert((a + bs).drop_last() =~= a + bd);
        assert((a + bs).last() == solid_block(ss.last()));
        lemma_world_names();
        assert(named(solid_block(ss.last()), "solid"@));
        assert(solid_writable(ss[ss.len() - 1]));
        lemma_solid_trip(ss.last());
        assert((world_blocks(a).solids + d).push(ss.last()) =~= world_blocks(a).solids + ss);
        assert(world_blocks(a + bs) == world_step(world_blocks(a + bd), solid_block(ss.last())));
        assert(world_blocks(a + bs).solids == world_blocks(a).solids + ss);
    }
}

/// Hidden blocks are read as the hidden solids they were written from.
proof fn lemma_world_hidden(a: Seq<BlockTree>, hs: Seq<SolidView>)
    requires
        forall|i: int| 0 <= i < hs.len() ==> solid_writable(#[trigger] hs[i]),
    ensures
        world_blocks(a + hs.map_values(|x: SolidView| hidden_block(x))) == (WorldParts {
            hidden: world_blocks(a).hidden + hs,
            ..world_blocks(a)
        }),
    decreases hs.len(),
{
    let bs = hs.map_values(|x: SolidView| hidden_block(x));
    if hs.len() == 0 {
        assert(a + bs =~= a);
        assert(world_blocks(a).hidden + hs =~= world_blocks(a).hidden);
        assert(world_blocks(a) == (WorldParts { hidden: world_blocks(a).hidden + hs, ..world_blocks(a) }));
    } else {
        let d = hs.drop_last();
        assert forall|i: int| 0 <= i < d.len() implies solid_writable(#[trigger] d[i]) by {
            assert(d[i] == hs[i]);
        }
        lemma_world_hidden(a, d);
        let bd = d.map_values(|x: SolidView| hidden_block(x));
        assert((a + bs).drop_last() =~= a + bd);
        let hb = hidden_block(hs.last());
        assert((a + bs).last() == hb);
        lemma_world_names();
        reveal_strlit("hidden");
        assert(named(hb, "hidden"@));
        assert(!named(hb, "solid"@) && !named(hb, "group"@));
        assert(solid_writable(hs[hs.len() - 1]));
        lemma_solid_trip(hs.last());
        assert(solids_of(hb.blocks) =~= seq![hs.last()]);
        assert(world_blocks(a).hidden + d + seq![hs.last()] =~= world_blocks(a).hidden + hs);
        assert(world_blocks(a + bs) == world_step(world_blocks(a + bd), hb));
        assert(world_blocks(a + bs).hidden == world_blocks(a).hidden + hs);
    }
}

/// Group blocks are read as the groups they were written from.
proof fn lemma_world_groups(a: Seq<BlockTree>, gs: Seq<GroupView>)
    requires
        forall|i: int| 0 <= i < gs.len() ==> group_writable(#[trigger] gs[i]),
    ensures
        world_blocks(a + gs.map_values(|x: GroupView| group_block(x))) == (WorldParts {
            groups: world_blocks(a).groups + gs,
            ..world_blocks(a)
        }),
    decreases gs.len(),
{
    let bs = gs.map_values(|x: GroupView| group_block(x));
    if gs.len() == 0 {
        assert(a + bs =~= a);
        assert(world_blocks(a).groups + gs =~= world_blocks(a).groups);
        assert(world_blocks(a) == (WorldParts { groups: world_blocks(a).groups + gs, ..world_blocks(a) }));
    } else {
        let d = gs.drop_last();
        assert forall|i: int| 0 <= i < d.len() implies group_writable(#[trigger] d[i]) by {
            assert(d[i] == gs[i]);
        }
        lemma_world_groups(a, d);
        let bd = d.map_values(|x: GroupView| group_block(x));
        assert((a + bs).drop_last() =~= a + bd);
        let gb = group_block(gs.last());
        assert((a + bs).last() == gb);
        lemma_world_names();
        reveal_strlit("group");
        assert(named(gb, "group"@));
        assert(!named(gb, "solid"@));
        assert(group_writable(gs[gs.len() - 1]));
        lemma_group_trip(gs.last());
        assert((world_blocks(a).groups + d).push(gs.last()) =~= world_blocks(a).groups + gs);
        assert(world_blocks(a + bs) == world_step(world_blocks(a + bd), gb));
        assert(world_blocks(a + bs).groups == world_blocks(a).groups + gs);
    }
}

/// Blocks that bear no name of a part of the world are kept as its other
/// blocks.
proof fn lemma_world_plain(a: Seq<BlockTree>, b: Seq<BlockTree>)
    requires
        forall|i: int| 0 <= i < b.len() ==> !world_part(#[trigger] b[i]),
    ensures
        world_blocks(a + b) == (WorldParts { unknown: world_blocks(a).unknown + b, ..world_blocks(a) }),
    decreases b.len(),
{
    if b.len() == 0 {
        assert(a + b =~= a);
        assert(world_blocks(a).unknown + b =~= world_blocks(a).unknown);
        assert(world_blocks(a) == (WorldParts { unknown: world_blocks(a).unknown + b, ..world_blocks(a) }));
    } else {
        let bd = b.drop_last();
        assert forall|i: int| 0 <= i < bd.len() implies !world_part(#[trigger] bd[i]) by {
            assert(bd[i] == b[i]);
        }
        lemma_world_plain(a, bd);
        assert((a + b).drop_last() =~= a + bd);
        assert((a + b).last() == b[b.len() - 1]);
        assert(!world_part(b[b.len() - 1]));
        assert((world_blocks(a).unknown + bd).push(b.last()) =~= world_blocks(a).unknown + b);
        assert(world_blocks(a + b) == world_step(world_blocks(a + bd), b.last()));
        assert(world_blocks(a + b).unknown == world_blocks(a).unknown + b);
    }
}

/// The world written as a `world` block reads back from it as itself, where
/// the block carries it unchanged (see [`world_writable`]).
pub proof fn lemma_world_trip(w: WorldView)
    requires
        world_writable(w),
    ensures
        world_of(world_block(w)) == w,
{
    let sb = w.solids.map_values(|s: SolidView| solid_block(s));
    let hb = w.hidden.map_values(|s: SolidView| hidden_block(s));
    let gb = w.groups.map_values(|g: GroupView| group_block(g));
    let e: Seq<BlockTree> = Seq::empty();
    assert(world_block(w).blocks =~= e + sb + hb + gb + w.extra.1);
    let base = world_blocks(e);
    assert(base == WorldParts { solids: Seq::empty(), hidden: Seq::empty(), groups: Seq::empty(), unknown: Seq::empty() });
    lemma_world_solids(e, w.solids);
    lemma_world_hidden(e + sb, w.hidden);
    lemma_world_groups(e + sb + hb, w.groups);
    lemma_world_plain(e + sb + hb + gb, w.extra.1);
    let p = world_blocks(world_block(w).blocks);
    assert(p.solids =~= w.solids);
    assert(p.hidden =~= w.hidden);
    assert(p.groups =~= w.groups);
    assert(p.unknown =~= w.extra.1);
    assert(crate::ordmap::put_all(w.key_values, w.extra.0) == w.key_values);
    reveal(world_of);
    let v = world_of(world_block(w));
    assert(v.extra =~= w.extra);
}

/// The flat pairs of two pieces of one pair each.
proof fn lemma_flat_two(p0: (Seq<char>, Seq<char>), p1: (Seq<char>, Seq<char>))
    ensures
        flat(seq![seq![p0], seq![p1]]) == seq![p0, p1],
        flat(seq![Seq::<(Seq<char>, Seq<char>)>::empty(), seq![p1]]) == seq![p1],
{
    let e = Seq::<(Seq<char>, Seq<char>)>::empty();
    let one = seq![seq![p0]];
    assert(one.drop_last() =~= Seq::<Pairs>::empty());
    assert(flat(one.drop_last()) == e);
    assert(e + seq![p0] =~= seq![p0]);
    assert(flat(one) == seq![p0]);
    let cs = seq![seq![p0], seq![p1]];
    assert(cs.drop_last() =~= one);
    assert(flat(cs) =~= seq![p0, p1]);
    let z = seq![e];
    assert(z.drop_last() =~= Seq::<Pairs>::empty());
    assert(flat(z) =~= e);
    let c1 = seq![e, seq![p1]];
    assert(c1.drop_last() =~= z);
    assert(flat(c1) =~= seq![p1]);
}

/// Two keyed pieces, each holding one pair, written then taken in order
/// before free pairs.
#[verifier::spinoff_prover]
proof fn lemma_two_pairs(ks: Seq<Seq<char>>, v0: Seq<char>, v1: Seq<char>, x: Pairs)
    requires
        ks.len() == 2,
        distinct_ic(ks),
        free_pairs(x, ks),
    ensures
        crate::ordmap::put_all(crate::ordmap::put(crate::ordmap::put(Seq::empty(), ks[0], v0), ks[1], v1), x) == seq![
            (ks[0], v0),
            (ks[1], v1),
        ] + x,
        taken(seq![(ks[0], v0), (ks[1], v1)] + x, ks[0]) == (Some(v0), seq![(ks[1], v1)] + x),
        taken(seq![(ks[1], v1)] + x, ks[1]) == (Some(v1), x),
{
    let cs = seq![seq![(ks[0], v0)], seq![(ks[1], v1)]];
    assert(keyed(cs, ks)) by {
        reveal(keyed);
    }
    lemma_flat_two((ks[0], v0), (ks[1], v1));
    assert(cs.take(0) =~= Seq::<Pairs>::empty());
    assert(cs.take(1) =~= seq![seq![(ks[0], v0)]]);
    assert(cs[0] == opt_pair(ks[0], Some(v0)));
    assert(cs[1] == opt_pair(ks[1], Some(v1)));
    lemma_put_piece(cs, ks, 0, Some(v0));
    lemma_put_piece(cs, ks, 1, Some(v1));
    assert(cs.take(2) =~= cs);
    lemma_put_extra(cs, ks, x);
    let c1 = cs.update(0, Seq::empty());
    assert(c1 =~= seq![Seq::<(Seq<char>, Seq<char>)>::empty(), seq![(ks[1], v1)]]);
    lemma_take_piece(cs, ks, x, 0);
    lemma_take_piece(c1, ks, x, 1);
    let c2 = c1.update(1, Seq::empty());
    assert forall|m: int| 0 <= m < c2.len() implies (#[trigger] c2[m]).len() == 0 by {}
    lemma_flat_emptied(c2);
    assert(flat(c2) + x =~= x);
}

/// Blocks other than empty `box` blocks are all kept.
proof fn lemma_kept_all(bs: Seq<BlockTree>)
    requires
        forall|i: int| 0 <= i < bs.len() ==> !(named(#[trigger] bs[i], "box"@) && bs[i].kvs.len() == 0),
    ensures
        kept_blocks(bs) == bs,
    decreases bs.len(),
{
    if bs.len() > 0 {
        let d = bs.drop_last();
        assert forall|i: int| 0 <= i < d.len() implies !(named(#[trigger] d[i], "box"@) && d[i].kvs.len() == 0) by {
            assert(d[i] == bs[i]);
        }
        lemma_kept_all(d);
        assert(!(named(bs[bs.len() - 1], "box"@) && bs[bs.len() - 1].kvs.len() == 0));
        assert(d.push(bs.last()) =~= bs);
    }
}

/// A cordon that its block carries and reads back unchanged: its other
/// pairs are free of the keys `name` and `active`, and none of its other
/// blocks is an empty `box` block.
pub open spec fn cordon_writable(c: CordonView) -> bool {
    &&& free_pairs(c.extra.0, seq!["name"@, "active"@])
    &&& forall|i: int| 0 <= i < c.extra.1.len() ==> !(named(#[trigger] c.extra.1[i], "box"@) && c.extra.1[i].kvs.len() == 0)
}

/// What reading a cordon takes from its block.
#[verifier::spinoff_prover]
#[verifier::rlimit(30)]
proof fn lemma_cordon_parts(c: CordonView)
    requires
        cordon_writable(c),
    ensures
        ({
            let b = cordon_block(c);
            let e = Seq::<(Seq<char>, Seq<char>)>::empty();
            &&& b.blocks.len() > 0
            &&& taken(b.blocks[0].kvs, "mins"@) == (Some(c.min), seq![("maxs"@, c.max)])
            &&& taken(seq![("maxs"@, c.max)], "maxs"@) == (Some(c.max), e)
            &&& kept_blocks(b.blocks.update(0, BlockTree { kvs: e, ..b.blocks[0] })) == c.extra.1
            &&& taken(b.kvs, "name"@) == (Some(c.name), seq![("active"@, bool_text(c.active))] + c.extra.0)
            &&& taken(seq![("active"@, bool_text(c.active))] + c.extra.0, "active"@) == (Some(bool_text(c.active)), c.extra.0)
        }),
{
    reveal_strlit("box");
    let bk = seq!["mins"@, "maxs"@];
    let ck = seq!["name"@, "active"@];
    assert(distinct_ic(bk) && distinct_ic(ck)) by {
        reveal(distinct_ic);
        reveal_strlit("name");
        reveal_strlit("active");
        reveal_strlit("mins");
        reveal_strlit("maxs");
        assert(lower_ascii("name"@[0]) != lower_ascii("active"@[0]));
        assert(lower_ascii("mins"@[1]) != lower_ascii("maxs"@[1]));
    }
    let e: Pairs = Seq::empty();
    assert(free_pairs(e, bk));
    lemma_two_pairs(bk, c.min, c.max, e);
    lemma_two_pairs(ck, c.name, bool_text(c.active), c.extra.0);
    assert(seq![("mins"@, c.min), ("maxs"@, c.max)] + e =~= seq![("mins"@, c.min), ("maxs"@, c.max)]);
    assert(seq![("maxs"@, c.max)] + e =~= seq![("maxs"@, c.max)]);
    lemma_cordon_kept(c);
}

/// The blocks a cordon keeps: its other blocks, without its emptied box.
proof fn lemma_cordon_kept(c: CordonView)
    requires
        cordon_writable(c),
    ensures
        kept_blocks(cordon_block(c).blocks.update(
            0,
            BlockTree { kvs: Seq::<(Seq<char>, Seq<char>)>::empty(), ..cordon_block(c).blocks[0] },
        )) == c.extra.1,
{
    reveal_strlit("box");
    let e = Seq::<(Seq<char>, Seq<char>)>::empty();
    let b = cordon_block(c);
    let bx = b.blocks[0];
    let bs1 = b.blocks.update(0, BlockTree { kvs: e, ..bx });
    assert(named(bs1[0], "box"@));
    lemma_kept_all(c.extra.1);
    assert(bs1.drop_first() =~= c.extra.1);
    lemma_kept_first_empty_box(bs1);
}

/// A cordon written as a `cordon` block reads back from it as itself, where
/// the block carries it unchanged (see [`cordon_writable`]).
pub proof fn lemma_cordon_trip(c: CordonView)
    requires
        cordon_writable(c),
    ensures
        cordon_of(cordon_block(c)) == c,
{
    lemma_cordon_parts(c);
    lemma_bool_text_reads_back(c.active);
    reveal(cordon_of);
}

/// An empty `box` block at the front is dropped.
proof fn lemma_kept_first_empty_box(bs: Seq<BlockTree>)
    requires
        bs.len() > 0,
        named(bs[0], "box"@),
        bs[0].kvs.len() == 0,
    ensures
        kept_blocks(bs) == kept_blocks(bs.drop_first()),
    decreases bs.len(),
{
    if bs.len() == 1 {
        assert(bs.drop_last() =~= Seq::<BlockTree>::empty());
        assert(bs.drop_first() =~= Seq::<BlockTree>::empty());
    } else {
        let d = bs.drop_last();
        lemma_kept_first_empty_box(d);
        assert(d.drop_first() =~= bs.drop_first().drop_last());
        assert(bs.drop_first().last() == bs.last());
    }
}

/// Cordon blocks are read as the cordons they were written from, before
/// blocks not named `cordon`.
proof fn lemma_cordon_blocks(cs: Seq<CordonView>, x: Seq<BlockTree>)
    requires
        forall|i: int| 0 <= i < cs.len() ==> cordon_writable(#[trigger] cs[i]),
        forall|i: int| 0 <= i < x.len() ==> !named(#[trigger] x[i], "cordon"@),
    ensures
        cordon_blocks(cs.map_values(|c: CordonView| cordon_block(c)) + x) == (cs, x),
    decreases cs.len() + x.len(),
{
    let bs = cs.map_values(|c: CordonView| cordon_block(c));
    if x.len() > 0 {
        let xd = x.drop_last();
        assert forall|i: int| 0 <= i < xd.len() implies !named(#[trigger] xd[i], "cordon"@) by {
            assert(xd[i] == x[i]);
        }
        lemma_cordon_blocks(cs, xd);
        assert((bs + x).drop_last() =~= bs + xd);
        assert((bs + x).last() == x[x.len() - 1]);
        assert(xd.push(x.last()) =~= x);
    } else if cs.len() > 0 {
        let d = cs.drop_last();
        assert forall|i: int| 0 <= i < d.len() implies cordon_writable(#[trigger] d[i]) by {
            assert(d[i] == cs[i]);
        }
        lemma_cordon_blocks(d, x);
        assert(bs + x =~= bs);
        let bd = d.map_values(|c: CordonView| cordon_block(c));
        assert(bd + x =~= bd);
        assert(bs.drop_last() =~= bd);
        reveal_strlit("cordon");
        assert(named(bs.last(), "cordon"@));
        assert(cordon_writable(cs[cs.len() - 1]));
        lemma_cordon_trip(cs.last());
        assert(d.push(cs.last()) =~= cs);
    } else {
        assert(bs + x =~= Seq::<BlockTree>::empty());
        assert(cs =~= Seq::<CordonView>::empty());
        assert(x =~= Seq::<BlockTree>::empty());
    }
}

/// Cordons written as a `cordons` block read back from it as themselves,
/// where their other pairs have no `active` key, their other blocks are not
/// named `cordon`, and each cordon is carried unchanged.
pub proof fn lemma_cordons_trip(c: CordonsView)
    requires
        free_pairs(c.extra.0, seq!["active"@]),
        forall|i: int| 0 <= i < c.extra.1.len() ==> !named(#[trigger] c.extra.1[i], "cordon"@),
        forall|i: int| 0 <= i < c.cordons.len() ==> cordon_writable(#[trigger] c.cordons[i]),
    ensures
        cordons_of(cordons_block(c)) == c,
{
    lemma_one_pair("active"@, dec_int(c.active as int), c.extra.0);
    lemma_cordon_blocks(c.cordons, c.extra.1);
    lemma_dec_int_reads_back(c.active as int, i8::MIN as int, i8::MAX as int);
    reveal(cordons_of);
}

/// The keys a visgroup is read from, in the order they are written.
pub open spec fn visgroup_keys() -> Seq<Seq<char>> {
    seq!["name"@, "visgroupid"@, "color"@]
}

/// A visgroup that its block carries and reads back unchanged: its other
/// pairs are free of the keys it is read from, none of its other blocks is
/// named `visgroup`, and its children (where it has a list of them) are not
/// none and are carried unchanged too.
pub open spec fn vg_writable(g: VisGroupView) -> bool
    decreases g, 0nat,
{
    &&& free_pairs(g.extra.0, visgroup_keys())
    &&& forall|i: int| 0 <= i < g.extra.1.len() ==> !named(#[trigger] g.extra.1[i], "visgroup"@)
    &&& match g.children {
        Some(c) => c.len() > 0 && vgs_writable(c),
        None => true,
    }
}

/// Visgroups that their blocks carry and read back unchanged.
pub open spec fn vgs_writable(gs: Seq<VisGroupView>) -> bool
    decreases gs, 1nat,
{
    if gs.len() == 0 {
        true
    } else {
        vgs_writable(gs.drop_last()) && vg_writable(gs.last())
    }
}

/// Blocks not named `visgroup` after others are kept as other blocks.
proof fn lemma_vg_blocks_plain(a: Seq<BlockTree>, b: Seq<BlockTree>)
    requires
        forall|i: int| 0 <= i < b.len() ==> !named(#[trigger] b[i], "visgroup"@),
    ensures
        vg_blocks(a + b) == (vg_blocks(a).0, vg_blocks(a).1 + b),
    decreases b.len(),
{
    if b.len() == 0 {
        assert(a + b =~= a);
        assert(vg_blocks(a).1 + b =~= vg_blocks(a).1);
    } else {
        let bd = b.drop_last();
        assert forall|i: int| 0 <= i < bd.len() implies !named(#[trigger] bd[i], "visgroup"@) by {
            assert(bd[i] == b[i]);
        }
        lemma_vg_blocks_plain(a, bd);
        assert((a + b).drop_last() =~= a + bd);
        assert((a + b).last() == b[b.len() - 1]);
        assert((vg_blocks(a).1 + bd).push(b.last()) =~= vg_blocks(a).1 + b);
    }
}

/// The flat pairs of three pieces of one pair each, and of the last two.
proof fn lemma_flat_three(p0: (Seq<char>, Seq<char>), p1: (Seq<char>, Seq<char>), p2: (Seq<char>, Seq<char>))
    ensures
        flat(seq![seq![p0], seq![p1], seq![p2]]) == seq![p0, p1, p2],
        flat(seq![Seq::<(Seq<char>, Seq<char>)>::empty(), seq![p1], seq![p2]]) == seq![p1, p2],
        flat(seq![Seq::<(Seq<char>, Seq<char>)>::empty(), Seq::<(Seq<char>, Seq<char>)>::empty(), seq![p2]]) == seq![p2],
{
    let e = Seq::<(Seq<char>, Seq<char>)>::empty();
    lemma_flat_two(p0, p1);
    lemma_flat_two(p1, p2);
    let a = seq![seq![p0], seq![p1], seq![p2]];
    assert(a.drop_last() =~= seq![seq![p0], seq![p1]]);
    assert(flat(a) =~= seq![p0, p1, p2]);
    let b = seq![e, seq![p1], seq![p2]];
    assert(b.drop_last() =~= seq![e, seq![p1]]);
    assert(flat(b) =~= seq![p1, p2]);
    let z = seq![e];
    assert(z.drop_last() =~= Seq::<Pairs>::empty());
    assert(flat(z.drop_last()) == e);
    assert(e + e =~= e);
    assert(flat(z) =~= e);
    let zz = seq![e, e];
    assert(zz.drop_last() =~= z);
    assert(flat(zz) =~= e);
    let c = seq![e, e, seq![p2]];
    assert(c.drop_last() =~= zz);
    assert(flat(c) =~= seq![p2]);
}

/// Three keyed pieces, each holding one pair, written then taken in order
/// before free pairs.
#[verifier::spinoff_prover]
proof fn lemma_three_pairs(ks: Seq<Seq<char>>, v0: Seq<char>, v1: Seq<char>, v2: Seq<char>, x: Pairs)
    requires
        ks.len() == 3,
        distinct_ic(ks),
        free_pairs(x, ks),
    ensures
        crate::ordmap::put_all(
            crate::ordmap::put(crate::ordmap::put(crate::ordmap::put(Seq::empty(), ks[0], v0), ks[1], v1), ks[2], v2),
            x,
        ) == seq![(ks[0], v0), (ks[1], v1), (ks[2], v2)] + x,
        taken(seq![(ks[0], v0), (ks[1], v1), (ks[2], v2)] + x, ks[0]) == (Some(v0), seq![(ks[1], v1), (ks[2], v2)] + x),
        taken(seq![(ks[1], v1), (ks[2], v2)] + x, ks[1]) == (Some(v1), seq![(ks[2], v2)] + x),
        taken(seq![(ks[2], v2)] + x, ks[2]) == (Some(v2), x),
{
    let cs = seq![seq![(ks[0], v0)], seq![(ks[1], v1)], seq![(ks[2], v2)]];
    assert(keyed(cs, ks)) by {
        reveal(keyed);
    }
    lemma_flat_three((ks[0], v0), (ks[1], v1), (ks[2], v2));
    assert(cs.take(0) =~= Seq::<Pairs>::empty());
    assert(cs.take(1) =~= seq![seq![(ks[0], v0)]]);
    assert(cs.take(2) =~= seq![seq![(ks[0], v0)], seq![(ks[1], v1)]]);
    assert(cs[0] == opt_pair(ks[0], Some(v0)));
    assert(cs[1] == opt_pair(ks[1], Some(v1)));
    assert(cs[2] == opt_pair(ks[2], Some(v2)));
    lemma_put_piece(cs, ks, 0, Some(v0));
    lemma_put_piece(cs, ks, 1, Some(v1));
    lemma_put_piece(cs, ks, 2, Some(v2));
    assert(cs.take(3) =~= cs);
    lemma_put_extra(cs, ks, x);
    let e = Seq::<(Seq<char>, Seq<char>)>::empty();
    let c1 = cs.update(0, e);
    let c2 = c1.update(1, e);
    let c3 = c2.update(2, e);
    assert(c1 =~= seq![e, seq![(ks[1], v1)], seq![(ks[2], v2)]]);
    assert(c2 =~= seq![e, e, seq![(ks[2], v2)]]);
    lemma_take_piece(cs, ks, x, 0);
    lemma_take_piece(c1, ks, x, 1);
    lemma_take_piece(c2, ks, x, 2);
    assert forall|m: int| 0 <= m < c3.len() implies (#[trigger] c3[m]).len() == 0 by {}
    lemma_flat_emptied(c3);
    assert(flat(c3) + x =~= x);
}

/// What reading the pairs of a visgroup block takes.
proof fn lemma_visgroup_pairs(g: VisGroupView)
    requires
        free_pairs(g.extra.0, visgroup_keys()),
    ensures
        ({
            let b = visgroup_block(g);
            let x = g.extra.0;
            let p2 = seq![("visgroupid"@, dec_int(g.id as int)), ("color"@, g.color)] + x;
            let p3 = seq![("color"@, g.color)] + x;
            &&& taken(b.kvs, "name"@) == (Some(g.name), p2)
            &&& taken(p2, "visgroupid"@) == (Some(dec_int(g.id as int)), p3)
            &&& taken(p3, "color"@) == (Some(g.color), x)
        }),
{
    let ks = visgroup_keys();
    assert(distinct_ic(ks)) by {
        reveal(distinct_ic);
        reveal_strlit("name");
        reveal_strlit("visgroupid");
        reveal_strlit("color");
        assert(lower_ascii("color"@[0]) != lower_ascii("name"@[0]));
    }
    lemma_three_pairs(ks, g.name, dec_int(g.id as int), g.color, g.extra.0);
}

/// The blocks of a visgroup block are read as its children and its other
/// blocks.
proof fn lemma_visgroup_kids(g: VisGroupView)
    requires
        vg_writable(g),
    ensures
        vg_blocks(visgroup_block(g).blocks) == (match g.children {
            Some(c) => c,
            None => Seq::<VisGroupView>::empty(),
        }, g.extra.1),
    decreases g, 0nat,
{
    let kids: Seq<BlockTree> = match g.children {
        Some(c) => visgroup_blocks(c),
        None => Seq::empty(),
    };
    match g.children {
        Some(c) => {
            lemma_visgroups_blocks_trip(c);
        },
        None => {
            assert(vg_blocks(kids) == (Seq::<VisGroupView>::empty(), Seq::<BlockTree>::empty()));
        },
    }
    lemma_vg_blocks_plain(kids, g.extra.1);
    assert(Seq::<BlockTree>::empty() + g.extra.1 =~= g.extra.1);
    assert(visgroup_block(g).blocks == kids + g.extra.1);
}

/// A visgroup written as a `visgroup` block reads back from it as itself,
/// where the block carries it unchanged (see [`vg_writable`]).
pub proof fn lemma_visgroup_trip(g: VisGroupView)
    requires
        vg_writable(g),
    ensures
        visgroup_of(visgroup_block(g)) == g,
    decreases g, 1nat,
{
    lemma_visgroup_pairs(g);
    lemma_dec_int_reads_back(g.id as int, i32::MIN as int, i32::MAX as int);
    lemma_visgroup_kids(g);
    let r = visgroup_of(visgroup_block(g));
    assert(r.children == g.children);
    assert(r.extra == g.extra);
}

/// Visgroup blocks are read as the visgroups they were written from.
pub proof fn lemma_visgroups_blocks_trip(gs: Seq<VisGroupView>)
    requires
        vgs_writable(gs),
    ensures
        vg_blocks(visgroup_blocks(gs)) == (gs, Seq::<BlockTree>::empty()),
    decreases gs, 2nat,
{
    if gs.len() > 0 {
        lemma_visgroups_blocks_trip(gs.drop_last());
        lemma_visgroup_trip(gs.last());
        reveal_strlit("visgroup");
        let bs = visgroup_blocks(gs);
        assert(bs.drop_last() =~= visgroup_blocks(gs.drop_last()));
        assert(bs.last() == visgroup_block(gs.last()));
        assert(named(visgroup_block(gs.last()), "visgroup"@));
        assert(gs.drop_last().push(gs.last()) =~= gs);
    } else {
        assert(gs =~= Seq::<VisGroupView>::empty());
    }
}

/// Visgroups written as a `visgroups` block read back from it as
/// themselves, where none of their other blocks is named `visgroup` and
/// each visgroup is carried unchanged.
pub proof fn lemma_visgroups_trip(v: VisGroupsView)
    requires
        forall|i: int| 0 <= i < v.extra.1.len() ==> !named(#[trigger] v.extra.1[i], "visgroup"@),
        vgs_writable(v.groups),
    ensures
        visgroups_of(visgroups_block(v)) == v,
{
    lemma_visgroups_blocks_trip(v.groups);
    lemma_vg_blocks_plain(visgroup_blocks(v.groups), v.extra.1);
    assert(Seq::<BlockTree>::empty() + v.extra.1 =~= v.extra.1);
}

/// The `hidden` block a hidden entity is written in.
pub open spec fn hidden_entity_block(e: EntityView) -> BlockTree {
    BlockTree { name: "hidden"@, kvs: Seq::empty(), blocks: seq![entity_block(e)] }
}

/// The root blocks the parts of a map file are written as, in the order of
/// its text: the metadata, the world, the entities, the hidden entities
/// each in a `hidden` block, the cameras, the cordons and the kept blocks.
pub open spec fn file_blocks(p: VmfParts) -> Seq<BlockTree> {
    seq![
        versioninfo_block(p.versioninfo),
        visgroups_block(p.visgroups),
        viewsettings_block(p.viewsettings),
        world_block(p.world),
    ] + p.entities.map_values(|e: EntityView| entity_block(e)) + p.hiddens.map_values(
        |e: EntityView| hidden_entity_block(e),
    ) + seq![cameras_block(p.cameras), cordons_block(p.cordons)] + p.extra
}

/// The names of the root blocks a map file reads its parts from.
pub open spec fn root_names() -> Seq<Seq<char>> {
    seq![
        "versioninfo"@,
        "visgroups"@,
        "viewsettings"@,
        "world"@,
        "entity"@,
        "hidden"@,
        "cameras"@,
        "cordons"@,
        "cordon"@,
    ]
}

proof fn lemma_root_names_differ()
    ensures
        distinct_ic(root_names()),
{
    reveal(distinct_ic);
    reveal_strlit("versioninfo");
    reveal_strlit("visgroups");
    reveal_strlit("viewsettings");
    reveal_strlit("world");
    reveal_strlit("entity");
    reveal_strlit("hidden");
    reveal_strlit("cameras");
    reveal_strlit("cordons");
    reveal_strlit("cordon");
    let ns = root_names();
    assert(lower_ascii(ns[6][1]) != lower_ascii(ns[7][1]));
    assert(!eq_ic(ns[6], ns[7]) && !eq_ic(ns[7], ns[6]));
    assert forall|a: int, b: int| 0 <= a < 9 && 0 <= b < 9 && a != b && ns[a].len() == ns[b].len() && !(a == 6 && b == 7) && !(
    a == 7 && b == 6) implies !eq_ic(#[trigger] ns[a], #[trigger] ns[b]) by {
        assert(lower_ascii(ns[a][0]) != lower_ascii(ns[b][0]));
    }
}

/// A hidden entity that its `hidden` block carries and reads back
/// unchanged: it is hidden, and carried unchanged as an entity otherwise.
pub open spec fn hidden_writable(e: EntityView) -> bool {
    e.is_hidden && entity_writable(EntityView { is_hidden: false, ..e })
}

/// The parts of a map file that its root blocks carry and read back
/// unchanged: each part is carried unchanged by its block, and none of the
/// kept blocks bears the name of a part.
pub open spec fn file_writable(p: VmfParts) -> bool {
    &&& free_pairs(p.versioninfo.extra.0, versioninfo_keys())
    &&& forall|i: int| 0 <= i < p.visgroups.extra.1.len() ==> !named(#[trigger] p.visgroups.extra.1[i], "visgroup"@)
    &&& vgs_writable(p.visgroups.groups)
    &&& free_pairs(p.viewsettings.extra.0, viewsettings_keys())
    &&& world_writable(p.world)
    &&& forall|i: int| 0 <= i < p.entities.len() ==> entity_writable(#[trigger] p.entities[i])
    &&& forall|i: int| 0 <= i < p.hiddens.len() ==> hidden_writable(#[trigger] p.hiddens[i])
    &&& free_pairs(p.cameras.extra.0, seq!["activecamera"@])
    &&& forall|i: int| 0 <= i < p.cameras.extra.1.len() ==> !named(#[trigger] p.cameras.extra.1[i], "camera"@)
    &&& forall|i: int| 0 <= i < p.cameras.cams.len() ==> free_pairs((#[trigger] p.cameras.cams[i]).extra.0, seq!["position"@, "look"@])
    &&& free_pairs(p.cordons.extra.0, seq!["active"@])
    &&& forall|i: int| 0 <= i < p.cordons.extra.1.len() ==> !named(#[trigger] p.cordons.extra.1[i], "cordon"@)
    &&& forall|i: int| 0 <= i < p.cordons.cordons.len() ==> cordon_writable(#[trigger] p.cordons.cordons[i])
    &&& forall|i: int, m: int| 0 <= i < p.extra.len() && 0 <= m < 9 ==> !named(#[trigger] p.extra[i], #[trigger] root_names()[m])
}

/// Entity blocks are read as the entities they were written from.
proof fn lemma_fold_entities(a: Seq<BlockTree>, es: Seq<EntityView>)
    requires
        forall|i: int| 0 <= i < es.len() ==> entity_writable(#[trigger] es[i]),
    ensures
        vmf_fold(a + es.map_values(|e: EntityView| entity_block(e))) == (VmfParts {
            entities: vmf_fold(a).entities + es,
            ..vmf_fold(a)
        }),
    decreases es.len(),
{
    let bs = es.map_values(|e: EntityView| entity_block(e));
    if es.len() == 0 {
        assert(a + bs =~= a);
        assert(vmf_fold(a).entities + es =~= vmf_fold(a).entities);
        assert(vmf_fold(a) == (VmfParts { entities: vmf_fold(a).entities + es, ..vmf_fold(a) }));
    } else {
        let d = es.drop_last();
        assert forall|i: int| 0 <= i < d.len() implies entity_writable(#[trigger] d[i]) by {
            assert(d[i] == es[i]);
        }
        lemma_fold_entities(a, d);
        let bd = d.map_values(|e: EntityView| entity_block(e));
        assert((a + bs).drop_last() =~= a + bd);
        let eb = entity_block(es.last());
        assert((a + bs).last() == eb);
        lemma_root_names_differ();
        let ns = root_names();
        assert(eb.name == ns[4]);
        assert forall|m: int| 0 <= m < 4 implies !named(eb, #[trigger] ns[m]) by {
            reveal(distinct_ic);
        }
        assert(named(eb, ns[4]));
        assert(entity_writable(es[es.len() - 1]));
        lemma_entity_trip(es.last());
        assert((vmf_fold(a).entities + d).push(es.last()) =~= vmf_fold(a).entities + es);
        assert(vmf_fold(a + bs) == vmf_step(vmf_fold(a + bd), eb));
        assert(vmf_fold(a + bs).entities == vmf_fold(a).entities + es);
    }
}

/// `hidden` blocks are read as the hidden entities they were written from.
proof fn lemma_fold_hiddens(a: Seq<BlockTree>, es: Seq<EntityView>)
    requires
        forall|i: int| 0 <= i < es.len() ==> hidden_writable(#[trigger] es[i]),
    ensures
        vmf_fold(a + es.map_values(|e: EntityView| hidden_entity_block(e))) == (VmfParts {
            hiddens: vmf_fold(a).hiddens + es,
            ..vmf_fold(a)
        }),
    decreases es.len(),
{
    let bs = es.map_values(|e: EntityView| hidden_entity_block(e));
    if es.len() == 0 {
        assert(a + bs =~= a);
        assert(vmf_fold(a).hiddens + es =~= vmf_fold(a).hiddens);
        assert(vmf_fold(a) == (VmfParts { hiddens: vmf_fold(a).hiddens + es, ..vmf_fold(a) }));
    } else {
        let d = es.drop_last();
        assert forall|i: int| 0 <= i < d.len() implies hidden_writable(#[trigger] d[i]) by {
            assert(d[i] == es[i]);
        }
        lemma_fold_hiddens(a, d);
        let bd = d.map_values(|e: EntityView| hidden_entity_block(e));
        assert((a + bs).drop_last() =~= a + bd);
        let e = es.last();
        let hb = hidden_entity_block(e);
        assert((a + bs).last() == hb);
        lemma_root_names_differ();
        let ns = root_names();
        assert(hb.name == ns[5]);
        assert forall|m: int| 0 <= m < 5 implies !named(hb, #[trigger] ns[m]) by {
            reveal(distinct_ic);
        }
        assert(named(hb, ns[5]));
        assert(hidden_writable(es[es.len() - 1]));
        let shown = EntityView { is_hidden: false, ..e };
        lemma_entity_trip(shown);
        assert(entity_block(shown) == entity_block(e));
        assert(hidden_entities(hb.blocks) =~= seq![e]);
        assert(vmf_fold(a).hiddens + d + seq![e] =~= vmf_fold(a).hiddens + es);
        assert(vmf_fold(a + bs) == vmf_step(vmf_fold(a + bd), hb));
        assert(vmf_fold(a + bs).hiddens == vmf_fold(a).hiddens + es);
    }
}

/// Blocks that bear no name of a part are kept.
pub(crate) proof fn lemma_fold_plain(a: Seq<BlockTree>, b: Seq<BlockTree>)
    requires
        forall|i: int, m: int| 0 <= i < b.len() && 0 <= m < 9 ==> !named(#[trigger] b[i], #[trigger] root_names()[m]),
    ensures
        vmf_fold(a + b) == (VmfParts { extra: vmf_fold(a).extra + b, ..vmf_fold(a) }),
    decreases b.len(),
{
    if b.len() == 0 {
        assert(a + b =~= a);
        assert(vmf_fold(a).extra + b =~= vmf_fold(a).extra);
        assert(vmf_fold(a) == (VmfParts { extra: vmf_fold(a).extra + b, ..vmf_fold(a) }));
    } else {
        let bd = b.drop_last();
        assert forall|i: int, m: int| 0 <= i < bd.len() && 0 <= m < 9 implies !named(#[trigger] bd[i], #[trigger] root_names()[m]) by {
            assert(bd[i] == b[i]);
        }
        lemma_fold_plain(a, bd);
        assert((a + b).drop_last() =~= a + bd);
        let l = b[b.len() - 1];
        assert((a + b).last() == l);
        let ns = root_names();
        assert(!named(l, ns[0]) && !named(l, ns[1]) && !named(l, ns[2]) && !named(l, ns[3]) && !named(l, ns[4]));
        assert(!named(l, ns[5]) && !named(l, ns[6]) && !named(l, ns[7]) && !named(l, ns[8]));
        assert((vmf_fold(a).extra + bd).push(l) =~= vmf_fold(a).extra + b);
        assert(vmf_fold(a + b) == vmf_step(vmf_fold(a + bd), l));
        assert(vmf_fold(a + b).extra == vmf_fold(a).extra + b);
    }
}

/// The four blocks the metadata and the world are written as set those
/// parts.
proof fn lemma_fold_head(p: VmfParts)
    requires
        file_writable(p),
    ensures
        ({
            let h = seq![
                versioninfo_block(p.versioninfo),
                visgroups_block(p.visgroups),
                viewsettings_block(p.viewsettings),
                world_block(p.world),
            ];
            vmf_fold(h) == (VmfParts {
                versioninfo: p.versioninfo,
                visgroups: p.visgroups,
                viewsettings: p.viewsettings,
                world: p.world,
                ..empty_parts()
            })
        }),
{
    lemma_root_names_differ();
    reveal(distinct_ic);
    let ns = root_names();
    let h = seq![
        versioninfo_block(p.versioninfo),
        visgroups_block(p.visgroups),
        viewsettings_block(p.viewsettings),
        world_block(p.world),
    ];
    assert(h[0].name == ns[0] && h[1].name == ns[1] && h[2].name == ns[2] && h[3].name == ns[3]);
    lemma_versioninfo_trip(p.versioninfo);
    lemma_visgroups_trip(p.visgroups);
    lemma_viewsettings_trip(p.viewsettings);
    lemma_world_trip(p.world);
    let h1 = seq![h[0]];
    let h2 = seq![h[0], h[1]];
    let h3 = seq![h[0], h[1], h[2]];
    assert(h.drop_last() =~= h3);
    assert(h3.drop_last() =~= h2);
    assert(h2.drop_last() =~= h1);
    assert(h1.drop_last() =~= Seq::<BlockTree>::empty());
    assert(named(h[0], ns[0]) && named(h[1], ns[1]) && named(h[2], ns[2]) && named(h[3], ns[3]));
    assert(!named(h[1], ns[0]));
    assert(!named(h[2], ns[0]) && !named(h[2], ns[1]));
    assert(!named(h[3], ns[0]) && !named(h[3], ns[1]) && !named(h[3], ns[2]));
    assert(vmf_fold(Seq::<BlockTree>::empty()) == empty_parts());
    assert(vmf_fold(h1) == vmf_step(vmf_fold(h1.drop_last()), h[0]));
    assert(vmf_fold(h2) == vmf_step(vmf_fold(h1), h[1]));
    assert(vmf_fold(h3) == vmf_step(vmf_fold(h2), h[2]));
    assert(vmf_fold(h) == vmf_step(vmf_fold(h3), h[3]));
}

/// The cameras and cordons blocks set those parts.
proof fn lemma_fold_regions(p: VmfParts, a: Seq<BlockTree>)
    requires
        file_writable(p),
    ensures
        vmf_fold(a.push(cameras_block(p.cameras)).push(cordons_block(p.cordons))) == (VmfParts {
            cameras: p.cameras,
            cordons: p.cordons,
            ..vmf_fold(a)
        }),
{
    lemma_root_names_differ();
    reveal(distinct_ic);
    let ns = root_names();
    let cams = cameras_block(p.cameras);
    let cords = cordons_block(p.cordons);
    lemma_cameras_trip(p.cameras);
    lemma_cordons_trip(p.cordons);
    assert(cams.name == ns[6] && cords.name == ns[7]);
    assert(named(cams, ns[6]) && named(cords, ns[7]));
    assert(!named(cams, ns[0]) && !named(cams, ns[1]) && !named(cams, ns[2]) && !named(cams, ns[3]) && !named(cams, ns[4])
        && !named(cams, ns[5]));
    assert(!named(cords, ns[0]) && !named(cords, ns[1]) && !named(cords, ns[2]) && !named(cords, ns[3]) && !named(cords, ns[4])
        && !named(cords, ns[5]) && !named(cords, ns[6]));
    let a1 = a.push(cams);
    let a2 = a1.push(cords);
    assert(a1.drop_last() =~= a);
    assert(a2.drop_last() =~= a1);
    assert(vmf_fold(a1) == vmf_step(vmf_fold(a), cams));
    assert(vmf_fold(a2) == vmf_step(vmf_fold(a1), cords));
}

/// The parts of a map file written as its root blocks read back from them
/// as themselves, where the blocks carry them unchanged (see
/// [`file_writable`]).
#[verifier::spinoff_prover]
pub proof fn lemma_file_trip(p: VmfParts)
    requires
        file_writable(p),
    ensures
        vmf_fold(file_blocks(p)) == p,
{
    let h = seq![
        versioninfo_block(p.versioninfo),
        visgroups_block(p.visgroups),
        viewsettings_block(p.viewsettings),
        world_block(p.world),
    ];
    let eb = p.entities.map_values(|e: EntityView| entity_block(e));
    let hb = p.hiddens.map_values(|e: EntityView| hidden_entity_block(e));
    lemma_fold_head(p);
    lemma_fold_entities(h, p.entities);
    lemma_fold_hiddens(h + eb, p.hiddens);
    let a = h + eb + hb;
    let a2 = a.push(cameras_block(p.cameras)).push(cordons_block(p.cordons));
    lemma_fold_regions(p, a);
    assert(file_blocks(p) =~= a2 + p.extra);
    lemma_fold_plain(a2, p.extra);
    let f0 = vmf_fold(h);
    let f1 = vmf_fold(h + eb);
    let f2 = vmf_fold(a);
    let f3 = vmf_fold(a2);
    let r = vmf_fold(file_blocks(p));
    assert(f0.entities.len() == 0 && f0.hiddens.len() == 0 && f0.extra.len() == 0);
    assert(f1.entities =~= p.entities) by {
        assert(f0.entities + p.entities =~= p.entities);
    }
    assert(f2.hiddens =~= p.hiddens) by {
        assert(f1.hiddens == f0.hiddens);
        assert(f0.hiddens + p.hiddens =~= p.hiddens);
    }
    assert(f3.extra.len() == 0);
    assert(r.extra =~= p.extra) by {
        assert(f3.extra + p.extra =~= p.extra);
    }
    assert(r.versioninfo == p.versioninfo);
    assert(r.visgroups == p.visgroups);
    assert(r.viewsettings == p.viewsettings);
    assert(r.world == p.world);
    assert(r.entities == p.entities);
    assert(r.hiddens == p.hiddens);
    assert(r.cameras == p.cameras);
    assert(r.cordons == p.cordons);
}

} // verus!
