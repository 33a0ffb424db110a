use lau_blueprint::{bridge, castle_wall, crystal_garden, small_house, tower};
use lau_blueprint::{Blueprint, BlueprintBlock, Material, StructureValidator};

#[test]
fn test_validator_empty_blueprint() {
    let bp = Blueprint::new("E", "A");
    let result = StructureValidator::new().validate(&bp);
    assert!(!result.valid);
    assert!(result.errors.iter().any(|e| e.contains("no blocks")));
}

#[test]
fn test_validator_no_foundation() {
    let mut bp = Blueprint::new("F", "A");
    bp.add_block(BlueprintBlock::new((0, 1, 0), Material::Stone, 0));
    let result = StructureValidator::new().validate(&bp);
    assert!(!result.valid);
    assert!(result.errors.iter().any(|e| e.contains("foundation")));
}

#[test]
fn test_validator_valid_blueprint() {
    let bp = small_house();
    let result = StructureValidator::new().validate(&bp);
    assert!(result.valid);
    assert!(result.errors.is_empty());
}

#[test]
fn test_validator_lava_water_warning() {
    let mut bp = Blueprint::new("Danger", "A");
    bp.add_block(BlueprintBlock::new((0, 0, 0), Material::Stone, 0));
    bp.add_block(BlueprintBlock::new((1, 0, 0), Material::Lava, 0));
    bp.add_block(BlueprintBlock::new((2, 0, 0), Material::Water, 0));
    let result = StructureValidator::new().validate(&bp);
    assert!(result.warnings.iter().any(|w| w.contains("steam")));
}

#[test]
fn test_validator_floating_blocks() {
    let mut bp = Blueprint::new("Float", "A");
    bp.add_block(BlueprintBlock::new((0, 0, 0), Material::Stone, 0));
    // Block at y=3 not connected to ground (gap at y=1, y=2)
    bp.add_block(BlueprintBlock::new((0, 3, 0), Material::Stone, 0));
    let result = StructureValidator::new().validate(&bp);
    assert!(!result.valid);
    assert!(result.errors.iter().any(|e| e.contains("floating")));
}

#[test]
fn test_validator_size_limit() {
    let mut bp = Blueprint::new("Big", "A");
    for i in 0..=200_i32 {
        bp.add_block(BlueprintBlock::new((i, 0, 0), Material::Stone, 0));
    }
    let result = StructureValidator::new().validate(&bp);
    assert!(result.errors.iter().any(|e| e.contains("max")));
}

#[test]
fn test_small_house_block_count() {
    assert_eq!(small_house().block_count(), 20);
}

#[test]
fn test_tower_block_count() {
    assert_eq!(tower().block_count(), 15);
}

#[test]
fn test_bridge_block_count() {
    assert_eq!(bridge().block_count(), 12);
}

#[test]
fn test_crystal_garden_block_count() {
    assert_eq!(crystal_garden().block_count(), 18);
}

#[test]
fn test_castle_wall_block_count() {
    assert_eq!(castle_wall().block_count(), 25);
}

#[test]
fn test_prebuilt_blueprints_validate() {
    let v = StructureValidator::new();
    assert!(v.validate(&small_house()).valid);
    assert!(v.validate(&tower()).valid);
    assert!(v.validate(&bridge()).valid);
    assert!(v.validate(&crystal_garden()).valid);
    assert!(v.validate(&castle_wall()).valid);
}

#[test]
fn empty_blueprint_reports_exactly_one_error() {
    let result = StructureValidator::new().validate(&Blueprint::new("E", "A"));
    assert_eq!(result.errors, vec!["Blueprint has no blocks".to_string()]);
    assert!(result.warnings.is_empty());
}

#[test]
fn size_limit_message_is_exact() {
    let mut bp = Blueprint::new("Big", "A");
    for i in 0..=200_i32 {
        bp.add_block(BlueprintBlock::new((i, 0, 0), Material::Stone, 0));
    }
    let result = StructureValidator::new().validate(&bp);
    assert!(!result.valid);
    assert_eq!(result.errors, vec!["Blueprint has 201 blocks, max is 200".to_string()]);
}

#[test]
fn exactly_max_blocks_is_allowed() {
    let mut bp = Blueprint::new("Max", "A");
    for i in 0..200_i32 {
        bp.add_block(BlueprintBlock::new((i, 0, 0), Material::Stone, 0));
    }
    let result = StructureValidator::new().validate(&bp);
    assert!(result.valid);
}

#[test]
fn floating_message_counts_distinct_positions() {
    let mut bp = Blueprint::new("Float", "A");
    bp.add_block(BlueprintBlock::new((0, 0, 0), Material::Stone, 0));
    bp.add_block(BlueprintBlock::new((0, 3, 0), Material::Stone, 0));
    bp.add_block(BlueprintBlock::new((0, 3, 0), Material::Wood, 0));
    bp.add_block(BlueprintBlock::new((0, 4, 0), Material::Stone, 0));
    let result = StructureValidator::new().validate(&bp);
    assert_eq!(
        result.errors,
        vec!["Blueprint has 2 floating blocks (not connected to ground)".to_string()]
    );
}

#[test]
fn no_foundation_reports_every_position_floating() {
    let mut bp = Blueprint::new("Air", "A");
    bp.add_block(BlueprintBlock::new((0, 5, 0), Material::Stone, 0));
    bp.add_block(BlueprintBlock::new((9, 9, 9), Material::Stone, 0));
    bp.add_block(BlueprintBlock::new((9, 9, 9), Material::Wood, 0));
    let result = StructureValidator::new().validate(&bp);
    assert_eq!(
        result.errors,
        vec![
            "Blueprint has no foundation (no blocks at y=0)".to_string(),
            "Blueprint has 2 floating blocks (not connected to ground)".to_string(),
        ]
    );
}

#[test]
fn single_block_above_ground_is_floating() {
    let mut bp = Blueprint::new("One", "A");
    bp.add_block(BlueprintBlock::new((0, 1, 0), Material::Stone, 0));
    let result = StructureValidator::new().validate(&bp);
    assert!(!result.valid);
    assert!(result.errors.iter().any(|e| e.contains("foundation")));
    assert!(result.errors.iter().any(|e| e.contains("floating")));
}

#[test]
fn connection_through_diagonal_does_not_count() {
    let mut bp = Blueprint::new("Diag", "A");
    bp.add_block(BlueprintBlock::new((0, 0, 0), Material::Stone, 0));
    bp.add_block(BlueprintBlock::new((1, 1, 0), Material::Stone, 0));
    let result = StructureValidator::new().validate(&bp);
    assert!(!result.valid);
    let mut bp2 = Blueprint::new("Down", "A");
    bp2.add_block(BlueprintBlock::new((0, 0, 0), Material::Stone, 0));
    bp2.add_block(BlueprintBlock::new((0, -1, 0), Material::Stone, 0));
    bp2.add_block(BlueprintBlock::new((0, -1, 1), Material::Stone, 0));
    assert!(StructureValidator::new().validate(&bp2).valid);
}

#[test]
fn fire_and_fragile_warnings() {
    let mut bp = Blueprint::new("Hazard", "A");
    bp.add_block(BlueprintBlock::new((0, 0, 0), Material::Wood, 0));
    bp.add_block(BlueprintBlock::new((1, 0, 0), Material::Lava, 0));
    bp.add_block(BlueprintBlock::new((2, 0, 0), Material::Glass, 0));
    bp.add_block(BlueprintBlock::new((3, 0, 0), Material::Glass, 0));
    bp.add_block(BlueprintBlock::new((4, 0, 0), Material::Glass, 0));
    let result = StructureValidator::new().validate(&bp);
    assert!(result.valid);
    assert_eq!(
        result.warnings,
        vec![
            "Wood and Lava adjacent — fire hazard!".to_string(),
            "More than half the blocks are Glass — fragile!".to_string(),
        ]
    );
}

#[test]
fn half_glass_is_not_fragile() {
    let mut bp = Blueprint::new("Half", "A");
    bp.add_block(BlueprintBlock::new((0, 0, 0), Material::Glass, 0));
    bp.add_block(BlueprintBlock::new((1, 0, 0), Material::Stone, 0));
    let result = StructureValidator::new().validate(&bp);
    assert!(result.warnings.is_empty());
}

#[test]
fn all_warnings_in_order() {
    let mut bp = Blueprint::new("All", "A");
    bp.add_block(BlueprintBlock::new((0, 0, 0), Material::Lava, 0));
    bp.add_block(BlueprintBlock::new((1, 0, 0), Material::Water, 0));
    bp.add_block(BlueprintBlock::new((2, 0, 0), Material::Wood, 0));
    for i in 3..7 {
        bp.add_block(BlueprintBlock::new((i, 0, 0), Material::Glass, 0));
    }
    let result = StructureValidator::default().validate(&bp);
    assert_eq!(result.warnings.len(), 3);
    assert!(result.warnings[0].contains("steam"));
    assert!(result.warnings[1].contains("fire"));
    assert!(result.warnings[2].contains("fragile"));
}

#[test]
fn several_errors_in_order() {
    let mut bp = Blueprint::new("Bad", "A");
    for i in 0..201_i32 {
        bp.add_block(BlueprintBlock::new((i, 1, 0), Material::Stone, 0));
    }
    let result = StructureValidator::new().validate(&bp);
    assert_eq!(
        result.errors,
        vec![
            "Blueprint has 201 blocks, max is 200".to_string(),
            "Blueprint has no foundation (no blocks at y=0)".to_string(),
            "Blueprint has 201 floating blocks (not connected to ground)".to_string(),
        ]
    );
}

#[test]
fn prebuilt_metadata() {
    let h = small_house();
    assert_eq!(h.name, "Small House");
    assert_eq!(h.author, "System");
    assert_eq!(h.tags, vec!["starter".to_string(), "house".to_string()]);
    assert_eq!(h.blocks[12].material, Material::Glass);
    assert_eq!(h.blocks[12].position, (2, 2, 0));
    let t = tower();
    assert_eq!(t.blocks[14].position, (1, 8, 1));
    assert_eq!(t.blocks[14].material, Material::Wood);
    assert_eq!(bridge().tags, vec!["path".to_string(), "crossing".to_string()]);
    assert_eq!(castle_wall().blocks[24].position, (4, 4, 0));
    assert_eq!(crystal_garden().blocks[17].position, (1, 2, 1));
}

#[test]
fn unreachable_block_at_range_edge_is_floating() {
    let mut bp = Blueprint::new("Edge", "A");
    bp.add_block(BlueprintBlock::new((0, 0, 0), Material::Stone, 0));
    bp.add_block(BlueprintBlock::new((i32::MAX, 5, i32::MIN), Material::Stone, 0));
    let result = StructureValidator::new().validate(&bp);
    assert_eq!(
        result.errors,
        vec!["Blueprint has 1 floating blocks (not connected to ground)".to_string()]
    );
}

#[test]
fn all_interior_checks_range_edges() {
    assert!(small_house().all_interior());
    assert!(Blueprint::new("E", "A").all_interior());
    let mut bp = Blueprint::new("Edge", "A");
    bp.add_block(BlueprintBlock::new((0, 0, 0), Material::Stone, 0));
    assert!(bp.all_interior());
    bp.add_block(BlueprintBlock::new((0, 0, i32::MIN), Material::Stone, 0));
    assert!(!bp.all_interior());
}
