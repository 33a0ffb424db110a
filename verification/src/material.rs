use vstd::prelude::*;

verus! {

/// Materials available for building.
#[derive(Debug, Clone, Copy, PartialEq, Eq, Structural, Hash)]
pub enum Material {
    Stone,
    Wood,
    Glass,
    Crystal,
    Metal,
    Glow,
    Water,
    Lava,
    Grass,
    Sand,
}

/// Per-block cost of a material, in tenths of a vibe.
pub open spec fn spec_vibe_cost_tenths(m: Material) -> nat {
    match m {
        Material::Stone => 10,
        Material::Wood => 5,
        Material::Glass => 20,
        Material::Crystal => 50,
        Material::Metal => 30,
        Material::Glow => 40,
        Material::Water => 15,
        Material::Lava => 60,
        Material::Grass => 3,
        Material::Sand => 4,
    }
}

impl Material {
    /// Vibe cost per block of this material, as an exact number of tenths.
    pub fn vibe_cost_tenths(&self) -> (r: u32)
        ensures
            r == spec_vibe_cost_tenths(*self),
    {
        match self {
            Material::Stone => 10,
            Material::Wood => 5,
            Material::Glass => 20,
            Material::Crystal => 50,
            Material::Metal => 30,
            Material::Glow => 40,
            Material::Water => 15,
            Material::Lava => 60,
            Material::Grass => 3,
            Material::Sand => 4,
        }
    }
}

/// Every material, each exactly once, in declaration order.
pub open spec fn all_materials() -> Seq<Material> {
    seq![
        Material::Stone,
        Material::Wood,
        Material::Glass,
        Material::Crystal,
        Material::Metal,
        Material::Glow,
        Material::Water,
        Material::Lava,
        Material::Grass,
        Material::Sand,
    ]
}

/// The position of a material in declaration order.
pub open spec fn material_index(m: Material) -> nat {
    match m {
        Material::Stone => 0,
        Material::Wood => 1,
        Material::Glass => 2,
        Material::Crystal => 3,
        Material::Metal => 4,
        Material::Glow => 5,
        Material::Water => 6,
        Material::Lava => 7,
        Material::Grass => 8,
        Material::Sand => 9,
    }
}

/// The number of materials.
pub const MATERIAL_COUNT: usize = 10;

impl Material {
    /// The position of this material in declaration order.
    pub(crate) fn index(&self) -> (r: usize)
        ensures
            r == material_index(*self),
            r < MATERIAL_COUNT,
            all_materials()[r as int] == *self,
    {
        match self {
            Material::Stone => 0,
            Material::Wood => 1,
            Material::Glass => 2,
            Material::Crystal => 3,
            Material::Metal => 4,
            Material::Glow => 5,
            Material::Water => 6,
            Material::Lava => 7,
            Material::Grass => 8,
            Material::Sand => 9,
        }
    }

    /// The material at a position in declaration order.
    pub(crate) fn from_index(k: usize) -> (m: Material)
        requires
            k < MATERIAL_COUNT,
        ensures
            m == all_materials()[k as int],
            material_index(m) == k,
    {
        if k == 0 {
            Material::Stone
        } else if k == 1 {
            Material::Wood
        } else if k == 2 {
            Material::Glass
        } else if k == 3 {
            Material::Crystal
        } else if k == 4 {
            Material::Metal
        } else if k == 5 {
            Material::Glow
        } else if k == 6 {
            Material::Water
        } else if k == 7 {
            Material::Lava
        } else if k == 8 {
            Material::Grass
        } else {
            Material::Sand
        }
    }
}

} // verus!
