use indexmap::IndexMap;
use source_formats::kv::de::Deserializer;
use source_formats::kv::value::Value;
use source_formats::vmf::common::Editor;
use source_formats::vmf::file::{parse_vmf, VmfFile};
use source_formats::vmf::parse_ctx::ParseCtx;
use source_formats::vmf::parser::value_to_vmf_block;
use source_formats::vmf::utils::{take_bool, take_key, take_opt_parse, take_parse, take_str, To01String};
use source_formats::vmf::visgroups::VisGroups;

#[test]
fn parse_vmf_valid_input() {
    let input = "\
    versioninfo\n\
    {\n\
    \t\"editorversion\" \"400\"\n\
    \t\"editorbuild\" \"8000\"\n\
    \t\"mapversion\" \"1\"\n\
    \t\"formatversion\" \"100\"\n\
    \t\"prefab\" \"0\"\n\
    }\n\
    world\n\
    {\n\
    \t\"classname\" \"worldspawn\"\n\
    }\n";
    let vmf = parse_vmf(input).unwrap();
    assert_eq!(vmf.versioninfo.editor_version, 400);
    assert_eq!(vmf.world.key_values.get("classname").unwrap(), "worldspawn");
}

#[test]
fn parse_vmf_bad_value_warns_instead_of_failing() {
    let input = "\
    versioninfo\n\
    {\n\
    \t\"editorversion\" \"abc\"\n\
    \t\"editorbuild\" \"8000\"\n\
    \t\"mapversion\" \"1\"\n\
    \t\"formatversion\" \"100\"\n\
    \t\"prefab\" \"0\"\n\
    }\n\
    world\n\
    {\n\
    \t\"classname\" \"worldspawn\"\n\
    }\n";

    let vmf = parse_vmf(input).unwrap();
    assert_eq!(vmf.versioninfo.editor_version, 0);
    assert_eq!(vmf.versioninfo.editor_build, 8000);
    assert_eq!(vmf.world.key_values.get("classname").unwrap(), "worldspawn");
    assert_eq!(vmf.warnings.len(), 1);
    assert!(vmf.warnings[0].contains("unparsable value 'abc'"));
}

#[test]
fn parse_vmf_broken_syntax_is_still_an_error() {
    assert!(parse_vmf("world\n{\n\t\"classname\" \"worldspawn\"\n").is_err());
}

#[test]
fn parse_vmf_keeps_unknown_root_blocks() {
    let input = "\
    world\n\
    {\n\
    \t\"classname\" \"worldspawn\"\n\
    }\n\
    custom_tool_data\n\
    {\n\
    \t\"vendor\" \"acme\"\n\
    }\n";

    let vmf = parse_vmf(input).unwrap();
    assert_eq!(vmf.extra_blocks.len(), 1);
    assert_eq!(vmf.extra_blocks[0].name, "custom_tool_data");
    assert!(vmf.to_vmf_string().contains("custom_tool_data"));
    assert!(vmf.warnings.iter().any(|w| w.contains("custom_tool_data")));
}

#[test]
fn parse_vmf_empty_input() {
    let input = "";
    let vmf = parse_vmf(input).unwrap();
    assert_eq!(vmf.entities.0.len(), 0);
    assert!(vmf.warnings.is_empty());
}

fn first_block(input: &str) -> source_formats::vmf::block::VmfBlock {
    let mut deserializer = Deserializer::from_str(input);
    let root = deserializer.parse_root().unwrap();
    match root {
        Value::Obj(entries) => {
            let e = &entries[0];
            value_to_vmf_block(e.key.clone(), &e.values[0])
        },
        Value::Str(_) => panic!("Expected Obj"),
    }
}

#[test]
fn parse_block_valid_block() {
    let block = first_block("entity { \"classname\" \"logic_relay\" }");
    assert_eq!(block.name, "entity");
    assert_eq!(block.key_values.get("classname"), Some(&"logic_relay".to_string()));
    assert!(block.blocks.is_empty());
}

#[test]
fn parse_block_nested_blocks() {
    let block = first_block("entity { \"classname\" \"logic_relay\" solid { \"id\" \"1\" } }");
    assert_eq!(block.name, "entity");
    assert_eq!(block.key_values.get("classname"), Some(&"logic_relay".to_string()));
    assert_eq!(block.blocks.len(), 1);
    assert_eq!(block.blocks[0].name, "solid");
    assert_eq!(block.blocks[0].key_values.get("id"), Some(&"1".to_string()));
}

#[test]
fn parse_block_empty_block() {
    let block = first_block("entity { }");
    assert_eq!(block.name, "entity");
    assert!(block.key_values.is_empty());
    assert!(block.blocks.is_empty());
}

fn map_of(pairs: &[(&str, &str)]) -> IndexMap<String, String> {
    pairs.iter().map(|(k, v)| (k.to_string(), v.to_string())).collect()
}

#[test]
fn lookup_ignores_case() {
    for spelling in ["bsnaptogrid", "BSNAPTOGRID", "bSnapToGrid"] {
        let mut map = map_of(&[("bSnapToGrid", "1")]);
        assert_eq!(take_key(&mut map, spelling), Some("1".to_string()));
        assert!(map.is_empty());
    }
}

#[test]
fn take_key_preserves_order_of_the_rest() {
    let mut map = map_of(&[("a", "1"), ("b", "2"), ("c", "3")]);
    take_key(&mut map, "b");
    assert_eq!(map.keys().collect::<Vec<_>>(), ["a", "c"]);
}

#[test]
fn missing_key_defaults_and_warns() {
    let mut ctx = ParseCtx::default();
    ctx.enter("viewsettings");
    let mut map = IndexMap::new();

    assert_eq!(take_str(&mut map, "name", "unnamed", &mut ctx), "unnamed");
    assert_eq!(take_parse::<i32>(&mut map, "id", -1, &mut ctx), -1);
    assert!(take_bool(&mut map, "flag", true, &mut ctx));

    assert_eq!(ctx.warnings().len(), 3);
    assert!(ctx.warnings()[0].starts_with("viewsettings: missing 'name'"));
}

#[test]
fn unparsable_value_defaults_and_warns() {
    let mut ctx = ParseCtx::default();
    let mut map = map_of(&[("id", "abc")]);

    assert_eq!(take_parse::<i32>(&mut map, "id", 7, &mut ctx), 7);
    assert!(map.is_empty(), "the bad key must not leak into extras");
    assert!(ctx.warnings()[0].contains("unparsable value 'abc'"));
}

#[test]
fn absent_optional_is_silent_but_malformed_is_not() {
    let mut ctx = ParseCtx::default();
    let mut map = map_of(&[("flags", "nope")]);

    assert_eq!(take_opt_parse::<u32>(&mut map, "rotation", &mut ctx), None);
    assert!(ctx.warnings().is_empty());

    assert_eq!(take_opt_parse::<u32>(&mut map, "flags", &mut ctx), None);
    assert_eq!(ctx.warnings().len(), 1);
}

#[test]
fn to_01_string_roundtrip() {
    assert_eq!(true.to_01_string(), "1");
    assert_eq!(false.to_01_string(), "0");
}

#[test]
fn bool_reads_back_from_its_text() {
    for b in [true, false] {
        let mut ctx = ParseCtx::default();
        let mut map = map_of(&[("flag", &b.to_01_string())]);
        assert_eq!(take_bool(&mut map, "flag", !b, &mut ctx), b);
        assert!(ctx.warnings().is_empty());
    }
}

#[test]
fn leave_undoes_join() {
    let mut e = Editor::default();
    let before = e.visgroup_ids.clone();
    assert!(e.join_visgroup(5));
    assert!(!e.join_visgroup(5));
    assert!(e.leave_visgroup(5));
    assert_eq!(e.visgroup_ids, before);
    assert!(!e.leave_visgroup(5));
}

#[test]
fn created_visgroup_is_found_by_its_id() {
    let mut v = VisGroups::new();
    let a = v.create("first");
    let b = v.create("second");
    assert_eq!(a, 1);
    assert_eq!(b, 2);
    assert_eq!(v.find_by_id(b).unwrap().name, "second");
    assert_eq!(v.find_by_name("first").unwrap().id, 1);
    let removed = v.remove_by_id(a).unwrap();
    assert_eq!(removed.name, "first");
    assert!(v.find_by_id(a).is_none());
    assert!(v.remove_by_id(a).is_none());
}

#[test]
fn merge_appends_entities_and_keeps_own_metadata() {
    let mut a = VmfFile::default();
    a.versioninfo.map_version = 3;
    let mut b = VmfFile::default();
    b.versioninfo.map_version = 9;
    b.entities.0.push(source_formats::vmf::entities::Entity::new("info_target", 1));
    a.merge(b);
    assert_eq!(a.entities.0.len(), 1);
    assert_eq!(a.versioninfo.map_version, 3);
}
