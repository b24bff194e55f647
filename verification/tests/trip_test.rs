use indexmap::IndexMap;
use source_formats::vmf::block::{Extras, VmfBlock};
use source_formats::vmf::common::Editor;
use source_formats::vmf::disp::{DispInfo, DispRows};
use source_formats::vmf::entities::Entity;
use source_formats::vmf::file::VmfFile;
use source_formats::vmf::metadata::{VersionInfo, ViewSettings};
use source_formats::vmf::parse_ctx::ParseCtx;
use source_formats::vmf::regions::{Camera, Cameras, Cordon, Cordons};
use source_formats::vmf::visgroups::{VisGroup, VisGroups};
use source_formats::vmf::world::{Group, Side, Solid, World};

fn extras(pairs: &[(&str, &str)], blocks: Vec<VmfBlock>) -> Extras {
    let mut key_values = IndexMap::new();
    for (k, v) in pairs {
        key_values.insert(k.to_string(), v.to_string());
    }
    Extras { key_values, blocks }
}

fn note_block() -> VmfBlock {
    let mut kv = IndexMap::new();
    kv.insert("text".to_string(), "kept".to_string());
    VmfBlock { name: "note".to_string(), key_values: kv, blocks: Vec::new() }
}

fn editor() -> Editor {
    Editor {
        color: "0 255 0".to_string(),
        visgroup_ids: vec![3, -7],
        group_id: Some(12),
        visgroup_shown: false,
        visgroup_auto_shown: true,
        comments: Some("a note".to_string()),
        logical_pos: Some("[0 1500]".to_string()),
        extra: extras(&[("custom", "x")], vec![note_block()]),
    }
}

fn rows(v: &[&str]) -> DispRows {
    DispRows { rows: v.iter().map(|s| s.to_string()).collect() }
}

fn disp() -> DispInfo {
    let mut allowed = IndexMap::new();
    allowed.insert("10".to_string(), vec![-1, 0, 255]);
    allowed.insert("11".to_string(), vec![]);
    DispInfo {
        power: 2,
        start_position: "[0 0 0]".to_string(),
        flags: Some(4),
        elevation: "0.5".to_string(),
        subdiv: true,
        normals: rows(&["0 0 1 0 0 1", "0 0 1 0 0 1"]),
        distances: rows(&["0 0", "1 1"]),
        offsets: rows(&["0 0 0"]),
        offset_normals: rows(&["0 0 1"]),
        alphas: rows(&["0 255"]),
        triangle_tags: rows(&["9 9"]),
        allowed_verts: allowed,
        extra: extras(&[("unknown", "1")], Vec::new()),
    }
}

fn side(id: u32, with_disp: bool) -> Side {
    Side {
        id,
        plane: "(0 0 0) (1 0 0) (0 1 0)".to_string(),
        material: "DEV/DEV_A".to_string(),
        u_axis: "[1 0 0 0] 0.25".to_string(),
        v_axis: "[0 -1 0 0] 0.25".to_string(),
        rotation: Some("90".to_string()),
        lightmap_scale: 32,
        smoothing_groups: -1,
        flags: None,
        dispinfo: if with_disp { Some(disp()) } else { None },
        extra: extras(&[("contents", "1")], Vec::new()),
    }
}

fn solid(id: u64) -> Solid {
    Solid { id, sides: vec![side(1, true), side(2, false)], editor: editor(), extra: extras(&[("kept", "yes")], Vec::new()) }
}

fn entity() -> Entity {
    let mut e = Entity::new("func_detail", 40);
    e.set("targetname".to_string(), "wall".to_string());
    e.add_connection("OnTrigger", "door", "Open", "", "0", -1);
    e.add_connection("OnTrigger", "light", "TurnOn", "", "0.5", 1);
    e.add_connection("OnUser1", "@player", "RunScriptCode", "Spawn(1, 2)", "0", -1);
    e.solids = Some(vec![solid(41)]);
    e.editor = editor();
    e.extra = extras(&[], vec![note_block()]);
    e
}

#[test]
fn an_entity_with_everything_survives_a_trip_through_its_block() {
    let back = Entity::from_block(entity().into_vmf_block(), &mut ParseCtx::new());
    assert_eq!(back, entity());
}

#[test]
fn a_solid_with_a_displacement_survives_a_trip_through_its_block() {
    let back = Solid::from_block(solid(5).into_vmf_block(), &mut ParseCtx::new());
    assert_eq!(back, solid(5));
    let back = DispInfo::from_block(disp().into_vmf_block(), &mut ParseCtx::new());
    assert_eq!(back, disp());
}

fn world() -> World {
    let mut w = World::new();
    w.key_values.insert("classname".to_string(), "worldspawn".to_string());
    w.key_values.insert("skyname".to_string(), "sky_day01_01".to_string());
    w.solids = vec![solid(2), solid(3)];
    w.hidden = vec![solid(4)];
    w.groups = vec![Group { id: 9, editor: editor(), extra: extras(&[], Vec::new()) }];
    w.extra = extras(&[], vec![note_block()]);
    w
}

#[test]
fn the_world_survives_a_trip_through_its_block() {
    let back = World::from_block(world().into_vmf_block(), &mut ParseCtx::new());
    assert_eq!(back, world());
}

fn visgroups() -> VisGroups {
    let child = VisGroup { name: "inner".to_string(), id: 2, color: "1 2 3".to_string(), children: None, extra: extras(&[], Vec::new()) };
    let top = VisGroup {
        name: "outer".to_string(),
        id: 1,
        color: "4 5 6".to_string(),
        children: Some(vec![child]),
        extra: extras(&[("x", "y")], Vec::new()),
    };
    VisGroups { groups: vec![top], extra: extras(&[], Vec::new()) }
}

#[test]
fn metadata_and_regions_survive_a_trip_through_their_blocks() {
    let v = VersionInfo { editor_version: 400, editor_build: 8000, map_version: 12, format_version: 100, prefab: true, extra: extras(&[], Vec::new()) };
    let back = VersionInfo::from_block(v.into_vmf_block(), &mut ParseCtx::new());
    assert_eq!(back.map_version, 12);
    assert!(back.prefab);
    let mut s = ViewSettings::new();
    s.grid_spacing = 64;
    s.show_3d_grid = true;
    let back = ViewSettings::from_block(s.into_vmf_block(), &mut ParseCtx::new());
    assert_eq!(back.grid_spacing, 64);
    assert!(back.show_3d_grid);
    let back = VisGroups::from_block(visgroups().into_vmf_block(), &mut ParseCtx::new());
    assert_eq!(back, visgroups());
    let cams = || Cameras {
        active: 1,
        cams: vec![
            Camera { position: "[0 0 0]".to_string(), look: "[1 0 0]".to_string(), extra: extras(&[], Vec::new()) },
            Camera { position: "[5 5 5]".to_string(), look: "[0 0 0]".to_string(), extra: extras(&[], Vec::new()) },
        ],
        extra: extras(&[], Vec::new()),
    };
    let back = Cameras::from_block(cams().into_vmf_block(), &mut ParseCtx::new());
    assert_eq!(back, cams());
    let cords = || Cordons {
        active: 1,
        cordons: vec![Cordon {
            name: "area".to_string(),
            active: true,
            min: "(-1 -1 -1)".to_string(),
            max: "(1 1 1)".to_string(),
            extra: extras(&[], Vec::new()),
        }],
        extra: extras(&[], Vec::new()),
    };
    let back = Cordons::from_block(cords().into_vmf_block(), &mut ParseCtx::new());
    assert_eq!(back, cords());
}

fn tool_block(name: &str, pairs: &[(&str, &str)], blocks: Vec<VmfBlock>) -> VmfBlock {
    let mut kv = IndexMap::new();
    for (k, v) in pairs {
        kv.insert(k.to_string(), v.to_string());
    }
    VmfBlock { name: name.to_string(), key_values: kv, blocks }
}

fn kept_blocks() -> Vec<VmfBlock> {
    let layer = tool_block("layer", &[("id", "4"), ("tags", "a\rb\rc")], vec![]);
    let other = tool_block("layer", &[("id", "5")], vec![tool_block("empty", &[], vec![])]);
    vec![
        tool_block("custom_tool_data", &[("version", "2"), ("path", "maps\\\\a.vmf")], vec![layer, other]),
        tool_block("custom_tool_data", &[], vec![]),
        tool_block("bookmarks", &[("first", "0 0 0")], vec![]),
    ]
}

#[test]
fn kept_root_blocks_survive_a_save_and_reload() {
    let blocks = kept_blocks();
    let mut text = String::new();
    for b in &blocks {
        text.push_str(&b.serialize(0));
    }
    let file = VmfFile::parse(&text).unwrap();
    assert_eq!(file.extra_blocks, blocks);
    assert!(file.entities.0.is_empty());
}
