use lau_blueprint::{Blueprint, BlueprintBlock, Material};

#[test]
fn test_block_new_clamps_rotation() {
    let b = BlueprintBlock::new((0, 0, 0), Material::Stone, 7);
    assert_eq!(b.rotation, 3);
    let b2 = BlueprintBlock::new((1, 1, 1), Material::Wood, 2);
    assert_eq!(b2.rotation, 2);
}

#[test]
fn test_blueprint_add_remove() {
    let mut bp = Blueprint::new("Test", "Alice");
    bp.add_block(BlueprintBlock::new((0, 0, 0), Material::Stone, 0));
    bp.add_block(BlueprintBlock::new((1, 0, 0), Material::Wood, 1));
    assert_eq!(bp.block_count(), 2);
    assert!(bp.remove_block((1, 0, 0)));
    assert_eq!(bp.block_count(), 1);
    assert!(!bp.remove_block((9, 9, 9)));
}

#[test]
fn test_blueprint_bounds() {
    let mut bp = Blueprint::new("B", "A");
    bp.add_block(BlueprintBlock::new((2, 3, 5), Material::Stone, 0));
    bp.add_block(BlueprintBlock::new((-1, 0, 4), Material::Wood, 0));
    let (min, max) = bp.bounds();
    assert_eq!(min, (-1, 0, 4));
    assert_eq!(max, (2, 3, 5));
}

#[test]
fn test_material_count() {
    let mut bp = Blueprint::new("M", "A");
    bp.add_block(BlueprintBlock::new((0, 0, 0), Material::Stone, 0));
    bp.add_block(BlueprintBlock::new((1, 0, 0), Material::Stone, 0));
    bp.add_block(BlueprintBlock::new((2, 0, 0), Material::Wood, 0));
    let mc = bp.material_count();
    assert_eq!(mc.get(&Material::Stone), Some(2));
    assert_eq!(mc.get(&Material::Wood), Some(1));
    assert_eq!(mc.len(), 2);
}

#[test]
fn material_count_absent_material_is_none() {
    let mut bp = Blueprint::new("M", "A");
    bp.add_block(BlueprintBlock::new((0, 0, 0), Material::Glass, 0));
    let mc = bp.material_count();
    assert_eq!(mc.get(&Material::Lava), None);
    assert!(!mc.contains_key(&Material::Lava));
    assert!(mc.contains_key(&Material::Glass));
    assert_eq!(mc.len(), 1);
}

#[test]
fn material_count_of_empty_blueprint() {
    let bp = Blueprint::new("E", "A");
    let mc = bp.material_count();
    assert_eq!(mc.len(), 0);
    assert_eq!(mc.get(&Material::Stone), None);
}

#[test]
fn material_counts_total_block_count() {
    let mut bp = Blueprint::new("T", "A");
    let all = [
        Material::Stone,
        Material::Wood,
        Material::Glass,
        Material::Crystal,
        Material::Metal,
        Material::Glow,
        Material::Water,
        Material::Lava,
        Material::Grass,
        Material::Sand,
    ];
    for (i, m) in all.iter().enumerate() {
        for k in 0..=i {
            bp.add_block(BlueprintBlock::new((i as i32, k as i32, 0), *m, 0));
        }
    }
    let mc = bp.material_count();
    let total: usize = all.iter().map(|m| mc.get(m).unwrap_or(0)).sum();
    assert_eq!(total, bp.block_count());
    assert_eq!(mc.len(), 10);
    assert_eq!(mc.get(&Material::Sand), Some(10));
}

#[test]
fn new_blueprint_is_empty_version_one() {
    let bp = Blueprint::new("Name", "Author");
    assert_eq!(bp.name, "Name");
    assert_eq!(bp.author, "Author");
    assert_eq!(bp.version, 1);
    assert!(bp.tags.is_empty());
    assert_eq!(bp.block_count(), 0);
}

#[test]
fn remove_block_removes_every_block_at_position_and_keeps_order() {
    let mut bp = Blueprint::new("R", "A");
    bp.add_block(BlueprintBlock::new((0, 0, 0), Material::Stone, 0));
    bp.add_block(BlueprintBlock::new((1, 0, 0), Material::Wood, 0));
    bp.add_block(BlueprintBlock::new((0, 0, 0), Material::Glass, 0));
    bp.add_block(BlueprintBlock::new((2, 0, 0), Material::Lava, 0));
    assert!(bp.remove_block((0, 0, 0)));
    assert_eq!(bp.block_count(), 2);
    assert_eq!(bp.blocks[0].position, (1, 0, 0));
    assert_eq!(bp.blocks[1].position, (2, 0, 0));
    assert!(!bp.remove_block((0, 0, 0)));
}

#[test]
fn added_block_can_be_removed() {
    let mut bp = Blueprint::new("R", "A");
    let b = BlueprintBlock::new((4, -2, 7), Material::Metal, 1);
    bp.add_block(b);
    assert!(bp.remove_block((4, -2, 7)));
    assert_eq!(bp.block_count(), 0);
}

#[test]
fn bounds_of_single_block_is_that_block() {
    let mut bp = Blueprint::new("S", "A");
    bp.add_block(BlueprintBlock::new((7, -3, 2), Material::Sand, 0));
    assert_eq!(bp.bounds(), ((7, -3, 2), (7, -3, 2)));
}

#[test]
fn bounds_at_extreme_coordinates() {
    let mut bp = Blueprint::new("X", "A");
    bp.add_block(BlueprintBlock::new((i32::MAX, 0, i32::MIN), Material::Stone, 0));
    bp.add_block(BlueprintBlock::new((i32::MIN, 5, 0), Material::Stone, 0));
    assert_eq!(bp.bounds(), ((i32::MIN, 0, i32::MIN), (i32::MAX, 5, 0)));
}

#[test]
fn position_sum_adds_coordinates() {
    let mut bp = Blueprint::new("C", "A");
    bp.add_block(BlueprintBlock::new((0, 0, 0), Material::Stone, 0));
    bp.add_block(BlueprintBlock::new((2, 2, 2), Material::Stone, 0));
    bp.add_block(BlueprintBlock::new((i32::MAX, i32::MIN, -5), Material::Stone, 0));
    assert_eq!(
        bp.position_sum(),
        (i32::MAX as i64 + 2, i32::MIN as i64 + 2, -3)
    );
    assert_eq!(Blueprint::new("E", "A").position_sum(), (0, 0, 0));
}

#[test]
fn vibe_cost_tenths_table() {
    assert_eq!(Material::Grass.vibe_cost_tenths(), 3);
    assert_eq!(Material::Crystal.vibe_cost_tenths(), 50);
    assert_eq!(Material::Lava.vibe_cost_tenths(), 60);
    assert_eq!(Material::Wood.vibe_cost_tenths(), 5);
    assert_eq!(Material::Sand.vibe_cost_tenths(), 4);
    assert_eq!(Material::Stone.vibe_cost_tenths(), 10);
    assert_eq!(Material::Water.vibe_cost_tenths(), 15);
    assert_eq!(Material::Glass.vibe_cost_tenths(), 20);
    assert_eq!(Material::Metal.vibe_cost_tenths(), 30);
    assert_eq!(Material::Glow.vibe_cost_tenths(), 40);
}

#[test]
fn material_count_entries_in_declaration_order() {
    let mut bp = Blueprint::new("M", "A");
    bp.add_block(BlueprintBlock::new((0, 0, 0), Material::Sand, 0));
    bp.add_block(BlueprintBlock::new((1, 0, 0), Material::Stone, 0));
    bp.add_block(BlueprintBlock::new((2, 0, 0), Material::Sand, 0));
    bp.add_block(BlueprintBlock::new((3, 0, 0), Material::Lava, 0));
    let mc = bp.material_count();
    assert_eq!(
        mc.entries(),
        vec![(Material::Stone, 1), (Material::Lava, 1), (Material::Sand, 2)]
    );
    assert_eq!(mc.entries().len(), mc.len());
    assert!(Blueprint::new("E", "A").material_count().entries().is_empty());
}

#[test]
fn checked_position_sum_of_small_blueprint() {
    let mut bp = Blueprint::new("C", "A");
    bp.add_block(BlueprintBlock::new((1, -2, 3), Material::Stone, 0));
    bp.add_block(BlueprintBlock::new((4, 5, -6), Material::Stone, 0));
    assert_eq!(bp.checked_position_sum(), Some((5, 3, -3)));
    assert_eq!(Blueprint::new("E", "A").checked_position_sum(), Some((0, 0, 0)));
}
