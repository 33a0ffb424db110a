use vstd::prelude::*;

use crate::blueprint::{same_metadata, texts, Blueprint, BlueprintBlock};
use crate::material::Material;

verus! {

/// An unrotated block of `m` at `(x, y, z)`.
pub open spec fn block_at(x: int, y: int, z: int, m: Material) -> BlueprintBlock {
    BlueprintBlock { position: (x as i32, y as i32, z as i32), material: m, rotation: 0 }
}

/// A 5-long, 1-wide, 4-tall house: a stone floor, wooden walls and roof, one glass window.
pub open spec fn small_house_blocks() -> Seq<BlueprintBlock> {
    Seq::new(
        20,
        |i: int|
            block_at(
                i % 5,
                i / 5,
                0,
                if i / 5 == 0 {
                    Material::Stone
                } else if i / 5 == 2 && i % 5 == 2 {
                    Material::Glass
                } else {
                    Material::Wood
                },
            ),
    )
}

/// A 2×2 stone base, a stone column up to height 7, and a 2×2 wooden top at height 8.
pub open spec fn tower_blocks() -> Seq<BlueprintBlock> {
    Seq::new(
        15,
        |i: int|
            if i < 4 {
                block_at(i / 2, 0, i % 2, Material::Stone)
            } else if i < 11 {
                block_at(0, i - 3, 0, Material::Stone)
            } else {
                block_at((i - 11) / 2, 8, (i - 11) % 2, Material::Wood)
            },
    )
}

/// A 6-long path: stone at `z == 0` and wood at `z == 1` for each `x`.
pub open spec fn bridge_blocks() -> Seq<BlueprintBlock> {
    Seq::new(
        12,
        |i: int|
            if i % 2 == 0 {
                block_at(i / 2, 0, 0, Material::Stone)
            } else {
                block_at(i / 2, 0, 1, Material::Wood)
            },
    )
}

/// A 3×2 grass base with crystal pillars and glow accents.
pub open spec fn crystal_garden_blocks() -> Seq<BlueprintBlock> {
    Seq::new(6, |i: int| block_at(i / 2, 0, i % 2, Material::Grass)) + seq![
        block_at(0, 1, 0, Material::Crystal),
        block_at(0, 2, 0, Material::Crystal),
        block_at(2, 1, 1, Material::Crystal),
        block_at(2, 2, 1, Material::Crystal),
        block_at(2, 3, 1, Material::Crystal),
        block_at(1, 1, 0, Material::Glow),
        block_at(1, 1, 1, Material::Glow),
        block_at(0, 1, 1, Material::Glow),
        block_at(2, 0, 1, Material::Glow),
        block_at(2, 4, 1, Material::Crystal),
        block_at(0, 3, 0, Material::Glow),
        block_at(1, 2, 1, Material::Glow),
    ]
}

/// A 5-long, 5-tall, 1-thick stone wall.
pub open spec fn castle_wall_blocks() -> Seq<BlueprintBlock> {
    Seq::new(25, |i: int| block_at(i / 5, i % 5, 0, Material::Stone))
}

/// A fresh blueprint by "System" with the given name, tags and blocks.
pub open spec fn is_system_blueprint(
    bp: Blueprint,
    name: Seq<char>,
    tags: Seq<Seq<char>>,
    blocks: Seq<BlueprintBlock>,
) -> bool {
    &&& bp.name@ == name
    &&& bp.author@ == "System"@
    &&& bp.version == 1
    &&& texts(bp.tags@) == tags
    &&& bp.blocks@ == blocks
}

/// An empty blueprint by "System" with two tags.
fn system_blueprint(name: &str, tag1: &str, tag2: &str) -> (bp: Blueprint)
    ensures
        bp.name@ == name@,
        bp.author@ == "System"@,
        bp.version == 1,
        texts(bp.tags@) == seq![tag1@, tag2@],
        bp.blocks@ == Seq::<BlueprintBlock>::empty(),
{
    let mut bp = Blueprint::new(name, "System");
    let mut tags: Vec<String> = Vec::new();
    tags.push(tag1.to_owned());
    tags.push(tag2.to_owned());
    assert(texts(tags@) =~= seq![tag1@, tag2@]);
    bp.tags = tags;
    bp
}

/// Small House: 20 blocks. A simple 5×1×4 vertical structure (wall-like house).
pub fn small_house() -> (bp: Blueprint)
    ensures
        is_system_blueprint(
            bp,
            "Small House"@,
            seq!["starter"@, "house"@],
            small_house_blocks(),
        ),
{
    let mut bp = system_blueprint("Small House", "starter", "house");
    let ghost start = bp;
    let ghost spec_blocks = small_house_blocks();
    // Floor y=0 (5 stone)
    for x in 0..5i32
        invariant
            bp.blocks@ == spec_blocks.take(x as int),
            spec_blocks == small_house_blocks(),
            same_metadata(bp, start),
    {
        bp.add_block(BlueprintBlock::new((x, 0, 0), Material::Stone, 0));
        assert(spec_blocks.take(x + 1) =~= spec_blocks.take(x as int).push(spec_blocks[x as int]));
    }
    // Walls y=1 (5 wood)
    for x in 0..5i32
        invariant
            bp.blocks@ == spec_blocks.take(5 + x),
            spec_blocks == small_house_blocks(),
            same_metadata(bp, start),
    {
        bp.add_block(BlueprintBlock::new((x, 1, 0), Material::Wood, 0));
        assert(spec_blocks.take(5 + x + 1) =~= spec_blocks.take(5 + x).push(
            spec_blocks[5 + x],
        ));
    }
    // Windows y=2 (5: 4 wood + 1 glass)
    for x in 0..5i32
        invariant
            bp.blocks@ == spec_blocks.take(10 + x),
            spec_blocks == small_house_blocks(),
            same_metadata(bp, start),
    {
        let m = if x == 2 {
            Material::Glass
        } else {
            Material::Wood
        };
        bp.add_block(BlueprintBlock::new((x, 2, 0), m, 0));
        assert(spec_blocks.take(10 + x + 1) =~= spec_blocks.take(10 + x).push(
            spec_blocks[10 + x],
        ));
    }
    // Roof y=3 (5 wood)
    for x in 0..5i32
        invariant
            bp.blocks@ == spec_blocks.take(15 + x),
            spec_blocks == small_house_blocks(),
            same_metadata(bp, start),
    {
        bp.add_block(BlueprintBlock::new((x, 3, 0), Material::Wood, 0));
        assert(spec_blocks.take(15 + x + 1) =~= spec_blocks.take(15 + x).push(
            spec_blocks[15 + x],
        ));
    }
    assert(spec_blocks.take(20) =~= spec_blocks);
    bp
}

/// Tower: 15 blocks. 2×2 base + 7-column + 2×2 top.
pub fn tower() -> (bp: Blueprint)
    ensures
        is_system_blueprint(bp, "Tower"@, seq!["tall"@, "medieval"@], tower_blocks()),
{
    let mut bp = system_blueprint("Tower", "tall", "medieval");
    let ghost start = bp;
    let ghost spec_blocks = tower_blocks();
    // Base 2×2 = 4
    for x in 0..2i32
        invariant
            bp.blocks@ == spec_blocks.take(2 * x),
            spec_blocks == tower_blocks(),
            same_metadata(bp, start),
    {
        for z in 0..2i32
            invariant
                bp.blocks@ == spec_blocks.take(2 * x + z),
                spec_blocks == tower_blocks(),
                same_metadata(bp, start),
                0 <= x < 2,
        {
            bp.add_block(BlueprintBlock::new((x, 0, z), Material::Stone, 0));
            assert(spec_blocks.take(2 * x + z + 1) =~= spec_blocks.take(2 * x + z).push(
                spec_blocks[2 * x + z],
            ));
        }
    }
    // Column from y=1..7 = 7
    for y in 1..8i32
        invariant
            bp.blocks@ == spec_blocks.take(3 + y),
            spec_blocks == tower_blocks(),
            same_metadata(bp, start),
    {
        bp.add_block(BlueprintBlock::new((0, y, 0), Material::Stone, 0));
        assert(spec_blocks.take(3 + y + 1) =~= spec_blocks.take(3 + y).push(spec_blocks[3 + y]));
    }
    // Top 2×2 = 4
    for x in 0..2i32
        invariant
            bp.blocks@ == spec_blocks.take(11 + 2 * x),
            spec_blocks == tower_blocks(),
            same_metadata(bp, start),
    {
        for z in 0..2i32
            invariant
                bp.blocks@ == spec_blocks.take(11 + 2 * x + z),
                spec_blocks == tower_blocks(),
                same_metadata(bp, start),
                0 <= x < 2,
        {
            bp.add_block(BlueprintBlock::new((x, 8, z), Material::Wood, 0));
            assert(spec_blocks.take(11 + 2 * x + z + 1) =~= spec_blocks.take(
                11 + 2 * x + z,
            ).push(spec_blocks[11 + 2 * x + z]));
        }
    }
    assert(spec_blocks.take(15) =~= spec_blocks);
    bp
}

/// Bridge: 12 blocks. 6×1×2 path.
pub fn bridge() -> (bp: Blueprint)
    ensures
        is_system_blueprint(bp, "Bridge"@, seq!["path"@, "crossing"@], bridge_blocks()),
{
    let mut bp = system_blueprint("Bridge", "path", "crossing");
    let ghost start = bp;
    let ghost spec_blocks = bridge_blocks();
    for x in 0..6i32
        invariant
            bp.blocks@ == spec_blocks.take(2 * x),
            spec_blocks == bridge_blocks(),
            same_metadata(bp, start),
    {
        bp.add_block(BlueprintBlock::new((x, 0, 0), Material::Stone, 0));
        assert(spec_blocks.take(2 * x + 1) =~= spec_blocks.take(2 * x).push(spec_blocks[2 * x]));
        bp.add_block(BlueprintBlock::new((x, 0, 1), Material::Wood, 0));
        assert(spec_blocks.take(2 * x + 2) =~= spec_blocks.take(2 * x + 1).push(
            spec_blocks[2 * x + 1],
        ));
    }
    assert(spec_blocks.take(12) =~= spec_blocks);
    bp
}

/// Crystal Garden: 18 blocks.
pub fn crystal_garden() -> (bp: Blueprint)
    ensures
        is_system_blueprint(
            bp,
            "Crystal Garden"@,
            seq!["magical"@, "garden"@],
            crystal_garden_blocks(),
        ),
{
    let mut bp = system_blueprint("Crystal Garden", "magical", "garden");
    let ghost start = bp;
    let ghost spec_blocks = crystal_garden_blocks();
    // Grass base 3×2 = 6
    for x in 0..3i32
        invariant
            bp.blocks@ == spec_blocks.take(2 * x),
            spec_blocks == crystal_garden_blocks(),
            same_metadata(bp, start),
    {
        for z in 0..2i32
            invariant
                bp.blocks@ == spec_blocks.take(2 * x + z),
                spec_blocks == crystal_garden_blocks(),
                same_metadata(bp, start),
                0 <= x < 3,
        {
            bp.add_block(BlueprintBlock::new((x, 0, z), Material::Grass, 0));
            assert(spec_blocks.take(2 * x + z + 1) =~= spec_blocks.take(2 * x + z).push(
                spec_blocks[2 * x + z],
            ));
        }
    }
    // Crystal pillars: 2 at col(0) + 3 at col(2,z=1) = 5
    bp.add_block(BlueprintBlock::new((0, 1, 0), Material::Crystal, 0));
    bp.add_block(BlueprintBlock::new((0, 2, 0), Material::Crystal, 0));
    bp.add_block(BlueprintBlock::new((2, 1, 1), Material::Crystal, 0));
    bp.add_block(BlueprintBlock::new((2, 2, 1), Material::Crystal, 0));
    bp.add_block(BlueprintBlock::new((2, 3, 1), Material::Crystal, 0));
    // Glow accents: 4
    bp.add_block(BlueprintBlock::new((1, 1, 0), Material::Glow, 0));
    bp.add_block(BlueprintBlock::new((1, 1, 1), Material::Glow, 0));
    bp.add_block(BlueprintBlock::new((0, 1, 1), Material::Glow, 0));
    bp.add_block(BlueprintBlock::new((2, 0, 1), Material::Glow, 0));
    // 3 more, connected to ground through the blocks above
    bp.add_block(BlueprintBlock::new((2, 4, 1), Material::Crystal, 0));
    bp.add_block(BlueprintBlock::new((0, 3, 0), Material::Glow, 0));
    bp.add_block(BlueprintBlock::new((1, 2, 1), Material::Glow, 0));
    assert(bp.blocks@ =~= spec_blocks);
    bp
}

/// Castle Wall: 25 blocks. 5-long × 5-tall × 1-thick.
pub fn castle_wall() -> (bp: Blueprint)
    ensures
        is_system_blueprint(
            bp,
            "Castle Wall"@,
            seq!["medieval"@, "defense"@],
            castle_wall_blocks(),
        ),
{
    let mut bp = system_blueprint("Castle Wall", "medieval", "defense");
    let ghost start = bp;
    let ghost spec_blocks = castle_wall_blocks();
    for x in 0..5i32
        invariant
            bp.blocks@ == spec_blocks.take(5 * x),
            spec_blocks == castle_wall_blocks(),
            same_metadata(bp, start),
    {
        for y in 0..5i32
            invariant
                bp.blocks@ == spec_blocks.take(5 * x + y),
                spec_blocks == castle_wall_blocks(),
                same_metadata(bp, start),
                0 <= x < 5,
        {
            bp.add_block(BlueprintBlock::new((x, y, 0), Material::Stone, 0));
            assert(spec_blocks.take(5 * x + y + 1) =~= spec_blocks.take(5 * x + y).push(
                spec_blocks[5 * x + y],
            ));
        }
    }
    assert(spec_blocks.take(25) =~= spec_blocks);
    bp
}

} // verus!
