use vstd::prelude::*;

use crate::blueprint::{occupies, tally, texts, Blueprint, BlueprintBlock, Position};
use crate::connectivity::{
    distinct_positions, grounded, grounded_component, grounded_interior, ground_positions,
    position_set,
};
use crate::material::Material;
use crate::text::{decimal, decimal_string};

verus! {

/// The largest number of blocks a sound blueprint may hold.
pub const MAX_BLOCKS: usize = 200;

/// Result of validating a blueprint.
#[derive(Debug, Clone)]
pub struct ValidationResult {
    pub valid: bool,
    pub errors: Vec<String>,
    pub warnings: Vec<String>,
}

/// Checks that a blueprint is structurally sound.
#[derive(Debug, Clone, Copy)]
pub struct StructureValidator;

/// Some block stands at ground level.
pub open spec fn has_foundation(blocks: Seq<BlueprintBlock>) -> bool {
    exists|i: int| 0 <= i < blocks.len() && (#[trigger] blocks[i]).position.1 == 0
}

/// The number of distinct block positions that no face-adjacent chain of blocks
/// connects to ground level.
pub open spec fn floating_count(blocks: Seq<BlueprintBlock>) -> nat {
    let occupied = position_set(blocks);
    occupied.filter(|p: Position| !grounded(occupied, p)).len()
}

/// The error for a blueprint without blocks.
pub open spec fn no_blocks_message() -> Seq<char> {
    "Blueprint has no blocks"@
}

/// The error for a blueprint of `n` blocks, above `MAX_BLOCKS`.
pub open spec fn too_many_blocks_message(n: nat) -> Seq<char> {
    "Blueprint has "@ + decimal(n) + " blocks, max is "@ + decimal(MAX_BLOCKS as nat)
}

/// The error for a blueprint without a block at ground level.
pub open spec fn no_foundation_message() -> Seq<char> {
    "Blueprint has no foundation (no blocks at y=0)"@
}

/// The error for `n` positions not connected to the ground.
pub open spec fn floating_blocks_message(n: nat) -> Seq<char> {
    "Blueprint has "@ + decimal(n) + " floating blocks (not connected to ground)"@
}

/// The warning for lava beside water.
pub open spec fn steam_warning() -> Seq<char> {
    "Lava and Water in the same blueprint may cause steam explosions"@
}

/// The warning for wood beside lava.
pub open spec fn fire_warning() -> Seq<char> {
    "Wood and Lava adjacent — fire hazard!"@
}

/// The warning for a blueprint made mostly of glass.
pub open spec fn fragile_warning() -> Seq<char> {
    "More than half the blocks are Glass — fragile!"@
}

/// `msg` alone where `cond` holds, nothing otherwise.
pub open spec fn message_if(cond: bool, msg: Seq<char>) -> Seq<Seq<char>> {
    if cond {
        seq![msg]
    } else {
        Seq::empty()
    }
}

/// The errors that validation reports, in order.
pub open spec fn expected_errors(blocks: Seq<BlueprintBlock>) -> Seq<Seq<char>> {
    if blocks.len() == 0 {
        seq![no_blocks_message()]
    } else {
        message_if(blocks.len() > MAX_BLOCKS, too_many_blocks_message(blocks.len()))
            + message_if(!has_foundation(blocks), no_foundation_message())
            + message_if(floating_count(blocks) > 0, floating_blocks_message(floating_count(blocks)))
    }
}

/// The warnings that validation reports, in order.
pub open spec fn expected_warnings(blocks: Seq<BlueprintBlock>) -> Seq<Seq<char>> {
    if blocks.len() == 0 {
        Seq::empty()
    } else {
        message_if(
            tally(blocks, Material::Lava) > 0 && tally(blocks, Material::Water) > 0,
            steam_warning(),
        ) + message_if(
            tally(blocks, Material::Wood) > 0 && tally(blocks, Material::Lava) > 0,
            fire_warning(),
        ) + message_if(tally(blocks, Material::Glass) > blocks.len() / 2, fragile_warning())
    }
}

/// The error for a blueprint of `n` blocks, above the limit.
fn too_many_blocks_text(n: usize) -> (s: String)
    ensures
        s@ == too_many_blocks_message(n as nat),
{
    let mut s = String::from_str("Blueprint has ");
    s.append(decimal_string(n).as_str());
    s.append(" blocks, max is ");
    s.append(decimal_string(MAX_BLOCKS).as_str());
    s
}

/// The error for `n` floating positions.
fn floating_blocks_text(n: usize) -> (s: String)
    ensures
        s@ == floating_blocks_message(n as nat),
{
    let mut s = String::from_str("Blueprint has ");
    s.append(decimal_string(n).as_str());
    s.append(" floating blocks (not connected to ground)");
    s
}

/// Appending a string appends its text.
proof fn lemma_texts_push(s: Seq<String>, x: String)
    ensures
        texts(s.push(x)) == texts(s).push(x@),
{
    assert(texts(s.push(x)) =~= texts(s).push(x@));
}

impl Default for StructureValidator {
    fn default() -> (r: Self)
        ensures
            r == StructureValidator,
    {
        StructureValidator
    }
}

impl StructureValidator {
    pub fn new() -> (r: Self)
        ensures
            r == StructureValidator,
    {
        StructureValidator
    }

    /// Validates a blueprint: errors for an empty blueprint, one above the block limit,
    /// one without a foundation, and floating blocks; warnings for hazardous material
    /// combinations. Valid means no error.
    pub fn validate(&self, bp: &Blueprint) -> (r: ValidationResult)
        requires
            grounded_interior(position_set(bp.blocks@)),
        ensures
            r.valid == (r.errors@.len() == 0),
            texts(r.errors@) == expected_errors(bp.blocks@),
            texts(r.warnings@) == expected_warnings(bp.blocks@),
    {
        let ghost blocks = bp.blocks@;
        let mut errors: Vec<String> = Vec::new();
        let mut warnings: Vec<String> = Vec::new();
        if bp.blocks.len() == 0 {
            errors.push(String::from_str("Blueprint has no blocks"));
            proof {
                lemma_texts_push(Seq::empty(), errors@[0]);
                assert(errors@ =~= Seq::<String>::empty().push(errors@[0]));
                assert(texts(warnings@) =~= Seq::<Seq<char>>::empty());
            }
            return ValidationResult { valid: false, errors, warnings };
        }
        let count = bp.block_count();
        if count > MAX_BLOCKS {
            let msg = too_many_blocks_text(count);
            proof {
                lemma_texts_push(errors@, msg);
            }
            errors.push(msg);
        }
        let ghost e1 = texts(errors@);
        assert(e1 =~= message_if(blocks.len() > MAX_BLOCKS, too_many_blocks_message(blocks.len())));

        let positions = distinct_positions(&bp.blocks);
        let ground = ground_positions(&positions);
        let has_ground = ground.len() > 0;
        let ghost occupied = position_set(blocks);
        proof {
            if has_foundation(blocks) {
                let i = choose|i: int| 0 <= i < blocks.len() && (#[trigger] blocks[i]).position.1 == 0;
                let p = blocks[i].position;
                assert(occupies(blocks, p));
                assert(positions@.to_set().contains(p));
                assert(ground@.contains(p));
            }
            if has_ground {
                let p = ground@[0];
                assert(ground@.contains(p));
                assert(positions@.to_set().contains(p));
                assert(occupies(blocks, p));
                let i = choose|i: int| 0 <= i < blocks.len() && #[trigger] blocks[i].position == p;
                assert(blocks[i].position.1 == 0);
            }
            assert(has_ground == has_foundation(blocks));
        }
        if !has_ground {
            let msg = String::from_str("Blueprint has no foundation (no blocks at y=0)");
            proof {
                lemma_texts_push(errors@, msg);
            }
            errors.push(msg);
        }
        let ghost e2 = texts(errors@);
        assert(e2 =~= e1 + message_if(!has_foundation(blocks), no_foundation_message()));

        let visited = grounded_component(&positions, ground);
        proof {
            let v = visited@.to_set();
            let floating = occupied.filter(|p: Position| !grounded(occupied, p));
            vstd::seq_lib::seq_to_set_is_finite(positions@);
            vstd::seq_lib::seq_to_set_is_finite(visited@);
            positions@.unique_seq_to_set();
            visited@.unique_seq_to_set();
            assert(floating =~= occupied.difference(v));
            assert(occupied.intersect(v) =~= v) by {
                assert forall|p: Position| v.contains(p) implies occupied.contains(p) by {
                    assert(visited@.contains(p));
                    crate::connectivity::lemma_grounded_is_occupied(occupied, p);
                }
            }
            vstd::set_lib::lemma_set_difference_len(occupied, v);
            assert(floating.len() == positions@.len() - visited@.len());
        }
        if visited.len() != positions.len() {
            let msg = floating_blocks_text(positions.len() - visited.len());
            proof {
                lemma_texts_push(errors@, msg);
            }
            errors.push(msg);
        }
        assert(texts(errors@) =~= expected_errors(blocks));

        let mc = bp.material_count();
        if mc.contains_key(&Material::Lava) && mc.contains_key(&Material::Water) {
            let msg = String::from_str(
                "Lava and Water in the same blueprint may cause steam explosions",
            );
            proof {
                lemma_texts_push(warnings@, msg);
            }
            warnings.push(msg);
        }
        let ghost w1 = texts(warnings@);
        assert(w1 =~= message_if(
            tally(blocks, Material::Lava) > 0 && tally(blocks, Material::Water) > 0,
            steam_warning(),
        ));
        if mc.contains_key(&Material::Wood) && mc.contains_key(&Material::Lava) {
            let msg = String::from_str("Wood and Lava adjacent — fire hazard!");
            proof {
                lemma_texts_push(warnings@, msg);
            }
            warnings.push(msg);
        }
        let ghost w2 = texts(warnings@);
        assert(w2 =~= w1 + message_if(
            tally(blocks, Material::Wood) > 0 && tally(blocks, Material::Lava) > 0,
            fire_warning(),
        ));
        match mc.get(&Material::Glass) {
            Some(gc) => {
                if gc > count / 2 {
                    let msg = String::from_str("More than half the blocks are Glass — fragile!");
                    proof {
                        lemma_texts_push(warnings@, msg);
                    }
                    warnings.push(msg);
                }
            },
            None => {},
        }
        assert(texts(warnings@) =~= w2 + message_if(
            tally(blocks, Material::Glass) > blocks.len() / 2,
            fragile_warning(),
        ));
        assert(texts(warnings@) =~= expected_warnings(blocks));
        let valid = errors.len() == 0;
        ValidationResult { valid, errors, warnings }
    }
}

} // verus!
