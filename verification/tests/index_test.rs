use source_formats::vmf::entities::{Entities, Entity};
use source_formats::vmf::file::VmfFile;
use source_formats::vmf::index::{EntId, EntityIndex};

fn named(classname: &str, name: &str, id: u64) -> Entity {
    let mut ent = Entity::new(classname, id);
    ent.set("targetname".to_string(), name.to_string());
    ent
}

fn fixture() -> VmfFile {
    let mut vmf = VmfFile::default();
    vmf.entities.0.push(named("prop_door", "door_a", 1));
    vmf.entities.0.push(named("prop_door", "door_a", 2));
    vmf.entities.0.push(named("logic_relay", "door_b", 3));
    vmf.entities.0.push(Entity::new("info_player_start", 4));
    vmf.hiddens.0.push(named("logic_auto", "hidden_relay", 5));
    vmf
}

#[test]
fn addresses_visible_and_hidden_entities() {
    let vmf = fixture();
    let ids: Vec<_> = vmf.iter_entities().into_iter().map(|(id, _)| id).collect();
    assert_eq!(ids.len(), 5);
    assert_eq!(ids[4], EntId { hidden: true, idx: 0 });

    assert_eq!(vmf.entity(ids[0]).unwrap().id(), 1);
    assert_eq!(vmf.entity(ids[4]).unwrap().classname(), Some("logic_auto"));
    assert!(vmf.entity(EntId { hidden: false, idx: 99 }).is_none());
}

#[test]
fn duplicate_names_all_resolve() {
    let index = EntityIndex::build(&fixture());
    let hits = index.by_name("door_a");
    assert_eq!(hits.len(), 2);
    assert_eq!(hits[0].idx, 0);
    assert_eq!(hits[1].idx, 1);
}

#[test]
fn hidden_entities_are_indexed() {
    let index = EntityIndex::build(&fixture());
    assert_eq!(index.by_name("hidden_relay"), &[EntId { hidden: true, idx: 0 }]);
}

#[test]
fn missing_name_is_empty_not_absent() {
    let index = EntityIndex::build(&fixture());
    assert!(index.by_name("nope").is_empty());
}

#[test]
fn wildcard_prefix_matches_every_carrier() {
    let index = EntityIndex::build(&fixture());
    let mut hits: Vec<_> = index.by_prefix("door_");
    hits.sort();
    assert_eq!(hits.len(), 3);

    assert_eq!(index.by_prefix("").len(), 4);
}

#[test]
fn index_survives_mutation_of_the_file() {
    let mut vmf = fixture();
    let index = EntityIndex::build(&vmf);
    let id = index.by_name("door_b")[0];
    vmf.entity_mut(id).unwrap().set("classname".to_string(), "func_instance".to_string());
    assert_eq!(vmf.entity(id).unwrap().classname(), Some("func_instance"));
}

#[test]
fn prefix_lists_names_in_first_seen_order() {
    let index = EntityIndex::build(&fixture());
    assert_eq!(
        index.by_prefix("door_"),
        vec![EntId { hidden: false, idx: 0 }, EntId { hidden: false, idx: 1 }, EntId { hidden: false, idx: 2 }]
    );
}

#[test]
fn entities_finders_and_removals() {
    let mut es = Entities(Vec::new());
    es.0.push(named("prop_door", "door_a", 1));
    es.0.push(named("logic_relay", "relay", 2));
    es.0.push(named("prop_door", "door_b", 3));
    assert_eq!(es.find_by_classname("prop_door").len(), 2);
    assert_eq!(es.find_by_name("relay")[0].id(), 2);
    assert_eq!(es.find_by_keyvalue("targetname", "door_b")[0].id(), 3);
    assert!(es.find_by_model("x").is_empty());
    let removed = es.remove_entity(2).unwrap();
    assert_eq!(removed.classname(), Some("logic_relay"));
    assert!(es.remove_entity(2).is_none());
    es.remove_by_keyvalue("classname", "prop_door");
    assert!(es.0.is_empty());
}

#[test]
fn visgroup_membership_queries() {
    let mut vmf = fixture();
    let g = vmf.visgroups.create("doors");
    vmf.entities.0[0].editor.join_visgroup(g);
    vmf.hiddens.0[0].editor.join_visgroup(g);
    let hits = vmf.get_entities_in_visgroup(g, false).unwrap();
    assert_eq!(hits.len(), 2);
    assert_eq!(hits[1].classname(), Some("logic_auto"));
    assert!(vmf.get_entities_in_visgroup(g + 1, true).is_none());
    assert!(vmf.get_solids_in_visgroup(g, true).unwrap().is_empty());
}
