use vstd::prelude::*;

use crate::blueprint::{coord, is_bounding_box, BlueprintBlock};
use crate::material::Material;
use crate::prebuilt::{
    bridge_blocks, castle_wall_blocks, crystal_garden_blocks, small_house_blocks, tower_blocks,
};

verus! {

/// An unrotated block of `m` at `(x, y, z)`.
pub open spec fn plain_block(x: int, y: int, z: int, m: Material) -> BlueprintBlock {
    BlueprintBlock { position: (x as i32, y as i32, z as i32), material: m, rotation: 0 }
}

/// Every block's coordinates lie in the box from `lo` to `hi`, and each face of the box
/// touches a block.
proof fn lemma_box(
    blocks: Seq<BlueprintBlock>,
    lo: (i32, i32, i32),
    hi: (i32, i32, i32),
    lo_at: Seq<int>,
    hi_at: Seq<int>,
)
    requires
        lo_at.len() == 3,
        hi_at.len() == 3,
        forall|i: int, a: int|
            0 <= i < blocks.len() && 0 <= a < 3 ==> coord(lo, a) <= #[trigger] coord(
                blocks[i].position,
                a,
            ) <= coord(hi, a),
        forall|a: int|
            0 <= a < 3 ==> 0 <= #[trigger] lo_at[a] < blocks.len() && coord(
                blocks[lo_at[a]].position,
                a,
            ) == coord(lo, a),
        forall|a: int|
            0 <= a < 3 ==> 0 <= #[trigger] hi_at[a] < blocks.len() && coord(
                blocks[hi_at[a]].position,
                a,
            ) == coord(hi, a),
    ensures
        is_bounding_box(blocks, lo, hi),
{
    assert forall|a: int| 0 <= a < 3 implies crate::blueprint::is_least_coord(
        blocks,
        a,
        #[trigger] coord(lo, a),
    ) && crate::blueprint::is_greatest_coord(blocks, a, coord(hi, a)) by {
        assert(coord(blocks[lo_at[a]].position, a) == coord(lo, a));
        assert(coord(blocks[hi_at[a]].position, a) == coord(hi, a));
        assert forall|i: int| 0 <= i < blocks.len() implies coord(lo, a) <= coord(
            #[trigger] blocks[i].position,
            a,
        ) <= coord(hi, a) by {}
    }
}

/// The bridge is 12 blocks: for each `x` in `0..6` a stone block at `(x, 0, 0)` and a wood
/// block at `(x, 0, 1)`, and nothing else; its bounding box runs from `(0, 0, 0)` to
/// `(5, 0, 1)`.
pub proof fn law_bridge_shape()
    ensures
        bridge_blocks().len() == 12,
        forall|x: int|
            0 <= x < 6 ==> bridge_blocks().contains(#[trigger] plain_block(x, 0, 0, Material::Stone))
                && bridge_blocks().contains(plain_block(x, 0, 1, Material::Wood)),
        forall|i: int|
            0 <= i < 12 ==> exists|x: int|
                0 <= x < 6 && (#[trigger] bridge_blocks()[i] == plain_block(x, 0, 0, Material::Stone)
                    || bridge_blocks()[i] == plain_block(x, 0, 1, Material::Wood)),
        is_bounding_box(bridge_blocks(), (0, 0, 0), (5, 0, 1)),
{
    let s = bridge_blocks();
    assert forall|x: int| 0 <= x < 6 implies s.contains(
        #[trigger] plain_block(x, 0, 0, Material::Stone),
    ) && s.contains(plain_block(x, 0, 1, Material::Wood)) by {
        assert(s[2 * x] == plain_block(x, 0, 0, Material::Stone));
        assert(s[2 * x + 1] == plain_block(x, 0, 1, Material::Wood));
    }
    assert forall|i: int| 0 <= i < 12 implies exists|x: int|
        0 <= x < 6 && (#[trigger] s[i] == plain_block(x, 0, 0, Material::Stone) || s[i]
            == plain_block(x, 0, 1, Material::Wood)) by {
        let x = i / 2;
        assert(s[i] == plain_block(x, 0, 0, Material::Stone) || s[i] == plain_block(
            x,
            0,
            1,
            Material::Wood,
        ));
    }
    lemma_box(s, (0, 0, 0), (5, 0, 1), seq![0int, 0, 0], seq![10int, 0, 1]);
}

/// The tower is 15 blocks. Its ground level is exactly a 2×2 stone base at `(x, 0, z)` for
/// `x, z` in `{0, 1}`; a stone column stands at `(0, y, 0)` for `y` in `1..8`; a 2×2 wood top
/// lies at height 8; its bounding box runs from `(0, 0, 0)` to `(1, 8, 1)`.
pub proof fn law_tower_shape()
    ensures
        tower_blocks().len() == 15,
        forall|i: int|
            0 <= i < 15 && (#[trigger] tower_blocks()[i]).position.1 == 0 ==> {
                &&& tower_blocks()[i].material == Material::Stone
                &&& 0 <= tower_blocks()[i].position.0 <= 1
                &&& 0 <= tower_blocks()[i].position.2 <= 1
            },
        forall|x: int, z: int|
            0 <= x < 2 && 0 <= z < 2 ==> tower_blocks().contains(
                #[trigger] plain_block(x, 0, z, Material::Stone),
            ) && tower_blocks().contains(plain_block(x, 8, z, Material::Wood)),
        forall|y: int|
            1 <= y < 8 ==> tower_blocks().contains(#[trigger] plain_block(0, y, 0, Material::Stone)),
        is_bounding_box(tower_blocks(), (0, 0, 0), (1, 8, 1)),
{
    let s = tower_blocks();
    assert forall|x: int, z: int| 0 <= x < 2 && 0 <= z < 2 implies s.contains(
        #[trigger] plain_block(x, 0, z, Material::Stone),
    ) && s.contains(plain_block(x, 8, z, Material::Wood)) by {
        assert(s[2 * x + z] == plain_block(x, 0, z, Material::Stone));
        assert(s[11 + 2 * x + z] == plain_block(x, 8, z, Material::Wood));
    }
    assert forall|y: int| 1 <= y < 8 implies s.contains(
        #[trigger] plain_block(0, y, 0, Material::Stone),
    ) by {
        assert(s[y + 3] == plain_block(0, y, 0, Material::Stone));
    }
    lemma_box(s, (0, 0, 0), (1, 8, 1), seq![0int, 0, 0], seq![2int, 11, 1]);
}

/// The house's material at `(x, y)`: stone at ground level, glass for the window at
/// `(2, 2)`, wood elsewhere.
pub open spec fn house_material(x: int, y: int) -> Material {
    if y == 0 {
        Material::Stone
    } else if x == 2 && y == 2 {
        Material::Glass
    } else {
        Material::Wood
    }
}

/// The small house is 20 blocks filling the 5×4 wall `(x, y, 0)` for `x` in `0..5` and `y`
/// in `0..4`: stone at ground level, one glass window at `(2, 2, 0)`, wood elsewhere; its
/// bounding box runs from `(0, 0, 0)` to `(4, 3, 0)`.
pub proof fn law_small_house_shape()
    ensures
        small_house_blocks().len() == 20,
        forall|x: int, y: int|
            0 <= x < 5 && 0 <= y < 4 ==> small_house_blocks().contains(
                #[trigger] plain_block(x, y, 0, house_material(x, y)),
            ),
        is_bounding_box(small_house_blocks(), (0, 0, 0), (4, 3, 0)),
{
    let s = small_house_blocks();
    assert forall|x: int, y: int| 0 <= x < 5 && 0 <= y < 4 implies s.contains(
        #[trigger] plain_block(x, y, 0, house_material(x, y)),
    ) by {
        let i = 5 * y + x;
        assert(i / 5 == y && i % 5 == x);
        assert(s[i] == plain_block(x, y, 0, house_material(x, y)));
    }
    lemma_box(s, (0, 0, 0), (4, 3, 0), seq![0int, 0, 0], seq![19int, 19, 0]);
}

/// The castle wall is 25 stone blocks filling `(x, y, 0)` for `x, y` in `0..5`; its
/// bounding box runs from `(0, 0, 0)` to `(4, 4, 0)`.
pub proof fn law_castle_wall_shape()
    ensures
        castle_wall_blocks().len() == 25,
        forall|i: int| 0 <= i < 25 ==> (#[trigger] castle_wall_blocks()[i]).material == Material::Stone,
        forall|x: int, y: int|
            0 <= x < 5 && 0 <= y < 5 ==> castle_wall_blocks().contains(
                #[trigger] plain_block(x, y, 0, Material::Stone),
            ),
        is_bounding_box(castle_wall_blocks(), (0, 0, 0), (4, 4, 0)),
{
    let s = castle_wall_blocks();
    assert forall|x: int, y: int| 0 <= x < 5 && 0 <= y < 5 implies s.contains(
        #[trigger] plain_block(x, y, 0, Material::Stone),
    ) by {
        let i = 5 * x + y;
        assert(i / 5 == x && i % 5 == y);
        assert(s[i] == plain_block(x, y, 0, Material::Stone));
    }
    lemma_box(s, (0, 0, 0), (4, 4, 0), seq![0int, 0, 0], seq![24int, 24, 0]);
}

/// The crystal garden is 18 blocks of grass, crystal and glow, with a 3×2 grass base at
/// `(x, 0, z)` for `x` in `0..3` and `z` in `0..2`; its bounding box runs from `(0, 0, 0)` to
/// `(2, 4, 1)`.
pub proof fn law_crystal_garden_shape()
    ensures
        crystal_garden_blocks().len() == 18,
        forall|i: int|
            0 <= i < 18 ==> {
                let m = (#[trigger] crystal_garden_blocks()[i]).material;
                m == Material::Grass || m == Material::Crystal || m == Material::Glow
            },
        forall|x: int, z: int|
            0 <= x < 3 && 0 <= z < 2 ==> crystal_garden_blocks().contains(
                #[trigger] plain_block(x, 0, z, Material::Grass),
            ),
        is_bounding_box(crystal_garden_blocks(), (0, 0, 0), (2, 4, 1)),
{
    let s = crystal_garden_blocks();
    assert forall|x: int, z: int| 0 <= x < 3 && 0 <= z < 2 implies s.contains(
        #[trigger] plain_block(x, 0, z, Material::Grass),
    ) by {
        assert(s[2 * x + z] == plain_block(x, 0, z, Material::Grass));
    }
    lemma_box(s, (0, 0, 0), (2, 4, 1), seq![0int, 0, 0], seq![4int, 15, 1]);
}

} // verus!
