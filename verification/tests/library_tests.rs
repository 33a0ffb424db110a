use lau_blueprint::{bridge, castle_wall, crystal_garden, small_house, tower};
use lau_blueprint::{Blueprint, BlueprintBlock, BlueprintLib, Material};

#[test]
fn test_lib_save_load() {
    let mut lib = BlueprintLib::new();
    lib.save(small_house());
    assert!(lib.load("Small House").is_some());
    assert!(lib.load("nope").is_none());
}

#[test]
fn test_lib_search_by_tag() {
    let mut lib = BlueprintLib::new();
    lib.save(small_house());
    lib.save(tower());
    lib.save(bridge());
    lib.save(castle_wall());
    let medieval = lib.search_by_tag("medieval");
    assert_eq!(medieval.len(), 2);
    let starter = lib.search_by_tag("starter");
    assert_eq!(starter.len(), 1);
    assert_eq!(starter[0].name, "Small House");
}

#[test]
fn test_lib_search_by_material() {
    let mut lib = BlueprintLib::new();
    lib.save(small_house());
    lib.save(crystal_garden());
    let crystal = lib.search_by_material(Material::Crystal);
    assert_eq!(crystal.len(), 1);
    assert_eq!(crystal[0].name, "Crystal Garden");
}

#[test]
fn test_lib_fork() {
    let mut lib = BlueprintLib::new();
    lib.save(small_house());
    let forked = lib.fork("Small House", "My House", "Bob").unwrap();
    assert_eq!(forked.name, "My House");
    assert_eq!(forked.author, "Bob");
    assert_eq!(forked.version, 1);
    assert_eq!(forked.block_count(), 20);
}

#[test]
fn test_lib_fork_missing() {
    let lib = BlueprintLib::new();
    assert!(lib.fork("ghost", "new", "me").is_none());
}

#[test]
fn save_replaces_blueprint_of_same_name() {
    let mut lib = BlueprintLib::new();
    lib.save(small_house());
    let mut other = Blueprint::new("Small House", "Eve");
    other.version = 7;
    lib.save(other);
    let loaded = lib.load("Small House").unwrap();
    assert_eq!(loaded.author, "Eve");
    assert_eq!(loaded.version, 7);
    assert_eq!(loaded.block_count(), 0);
    assert_eq!(lib.blueprints().len(), 1);
}

#[test]
fn save_keeps_other_names() {
    let mut lib = BlueprintLib::new();
    lib.save(tower());
    lib.save(bridge());
    assert_eq!(lib.load("Tower").unwrap().block_count(), 15);
    assert_eq!(lib.load("Bridge").unwrap().block_count(), 12);
    assert_eq!(lib.blueprints().len(), 2);
}

#[test]
fn search_by_tag_ignores_ascii_case() {
    let mut lib = BlueprintLib::new();
    lib.save(tower());
    lib.save(castle_wall());
    assert_eq!(lib.search_by_tag("MEDIEVAL").len(), 2);
    assert_eq!(lib.search_by_tag("Tall").len(), 1);
    assert_eq!(lib.search_by_tag("medieva").len(), 0);
    assert_eq!(lib.search_by_tag("").len(), 0);
}

#[test]
fn search_in_empty_library_finds_nothing() {
    let lib = BlueprintLib::default();
    assert!(lib.search_by_tag("house").is_empty());
    assert!(lib.search_by_material(Material::Stone).is_empty());
    assert!(lib.blueprints().is_empty());
}

#[test]
fn fork_copies_blocks_and_tags() {
    let mut lib = BlueprintLib::new();
    let mut bp = Blueprint::new("Orig", "Ann");
    bp.version = 3;
    bp.tags = vec!["a".to_string(), "b".to_string()];
    bp.add_block(BlueprintBlock::new((1, 2, 3), Material::Water, 2));
    lib.save(bp);
    let f = lib.fork("Orig", "Copy", "Ben").unwrap();
    assert_eq!(f.name, "Copy");
    assert_eq!(f.author, "Ben");
    assert_eq!(f.version, 1);
    assert_eq!(f.tags, vec!["a".to_string(), "b".to_string()]);
    assert_eq!(f.blocks, vec![BlueprintBlock::new((1, 2, 3), Material::Water, 2)]);
    assert!(lib.load("Copy").is_none());
}

#[test]
fn cloned_library_holds_same_blueprints() {
    let mut lib = BlueprintLib::new();
    lib.save(small_house());
    lib.save(tower());
    let copy = lib.clone();
    assert_eq!(copy.blueprints().len(), 2);
    let h = copy.load("Small House").unwrap();
    assert_eq!(h.block_count(), 20);
    assert_eq!(h.tags, vec!["starter".to_string(), "house".to_string()]);
    lib.save(Blueprint::new("Small House", "Zed"));
    assert_eq!(copy.load("Small House").unwrap().author, "System");
}

#[test]
fn cloned_blueprint_has_same_content() {
    let h = small_house();
    let c = h.clone();
    assert_eq!(c.name, h.name);
    assert_eq!(c.author, h.author);
    assert_eq!(c.version, h.version);
    assert_eq!(c.tags, h.tags);
    assert_eq!(c.blocks, h.blocks);
}
