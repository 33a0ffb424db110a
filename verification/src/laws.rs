use vstd::prelude::*;

use crate::blueprint::{occupies, tally, Blueprint, BlueprintBlock, Position};
use crate::library::BlueprintLib;
use crate::connectivity::{grounded, grounded_interior, is_interior, position_set};
use crate::material::{all_materials, Material};
use crate::text::{ascii_lower, decimal, eq_ignoring_ascii_case};
use crate::validator::{
    expected_errors, expected_warnings, fire_warning, floating_count, fragile_warning,
    has_foundation, message_if, steam_warning, MAX_BLOCKS,
};

verus! {

/// The occupied positions of a blueprint form a finite set.
pub proof fn lemma_position_set_finite(blocks: Seq<BlueprintBlock>)
    ensures
        position_set(blocks).finite(),
{
    let ps = blocks.map_values(|b: BlueprintBlock| b.position);
    assert forall|p: Position| #[trigger] position_set(blocks).contains(p) <==> ps.to_set().contains(
        p,
    ) by {
        if occupies(blocks, p) {
            let i = choose|i: int| 0 <= i < blocks.len() && #[trigger] blocks[i].position == p;
            assert(ps[i] == p);
        }
        if ps.contains(p) {
            let i = choose|i: int| 0 <= i < ps.len() && ps[i] == p;
            assert(blocks[i].position == p);
        }
    }
    assert(position_set(blocks) =~= ps.to_set());
    vstd::seq_lib::seq_to_set_is_finite(ps);
}

/// After removing the blocks at `pos`, no block stands there; something was removed
/// (the block list got shorter) exactly when some block stood there; every block at
/// another position stays.
pub proof fn law_remove_clears_position(blocks: Seq<BlueprintBlock>, pos: Position)
    ensures
        !occupies(blocks.filter(|b: BlueprintBlock| b.position != pos), pos),
        blocks.filter(|b: BlueprintBlock| b.position != pos).len() < blocks.len() <==> occupies(
            blocks,
            pos,
        ),
        forall|i: int|
            0 <= i < blocks.len() && blocks[i].position != pos ==> blocks.filter(
                |b: BlueprintBlock| b.position != pos,
            ).contains(#[trigger] blocks[i]),
    decreases blocks.len(),
{
    let pred = |b: BlueprintBlock| b.position != pos;
    broadcast use vstd::seq_lib::group_filter_ensures;

    reveal_with_fuel(Seq::filter, 1);
    if blocks.len() > 0 {
        let rest = blocks.drop_last();
        law_remove_clears_position(rest, pos);
        assert(blocks.filter(pred).len() <= blocks.len());
        if occupies(blocks, pos) && !occupies(rest, pos) {
            let i = choose|i: int| 0 <= i < blocks.len() && #[trigger] blocks[i].position == pos;
            if i < rest.len() {
                assert(rest[i].position == pos);
            }
        }
        if occupies(rest, pos) {
            let i = choose|i: int| 0 <= i < rest.len() && #[trigger] rest[i].position == pos;
            assert(blocks[i].position == pos);
        }
        if occupies(blocks.filter(pred), pos) {
            let i = choose|i: int|
                0 <= i < blocks.filter(pred).len() && #[trigger] blocks.filter(pred)[i].position
                    == pos;
            assert(pred(blocks.filter(pred)[i]));
        }
        assert forall|i: int|
            0 <= i < blocks.len() && blocks[i].position != pos implies blocks.filter(
                pred,
            ).contains(#[trigger] blocks[i]) by {
            assert(pred(blocks[i]));
        }
    }
}

/// A block just added stands at its position, so removing that position removes it.
pub proof fn law_added_block_is_found(blocks: Seq<BlueprintBlock>, block: BlueprintBlock)
    ensures
        occupies(blocks.push(block), block.position),
{
    assert(blocks.push(block)[blocks.len() as int] == block);
}

/// The total of per-material counts over `ms`.
pub open spec fn counted_over(blocks: Seq<BlueprintBlock>, ms: Seq<Material>) -> nat
    decreases ms.len(),
{
    if ms.len() == 0 {
        0
    } else {
        counted_over(blocks, ms.drop_last()) + tally(blocks, ms.last())
    }
}

/// Appending a block raises the total over `ms` by the number of times `ms` lists its material.
proof fn lemma_counted_over_push(blocks: Seq<BlueprintBlock>, b: BlueprintBlock, ms: Seq<Material>)
    ensures
        counted_over(blocks.push(b), ms) == counted_over(blocks, ms) + ms.filter(
            |m: Material| m == b.material,
        ).len(),
    decreases ms.len(),
{
    reveal_with_fuel(Seq::filter, 1);
    if ms.len() > 0 {
        lemma_counted_over_push(blocks, b, ms.drop_last());
        assert(blocks.push(b).drop_last() =~= blocks);
    }
}

/// The counts of all materials add up to the number of blocks: every block is counted
/// under exactly one material.
pub proof fn law_material_counts_total(blocks: Seq<BlueprintBlock>)
    ensures
        counted_over(blocks, all_materials()) == blocks.len(),
    decreases blocks.len(),
{
    if blocks.len() == 0 {
        assert(counted_over(blocks, all_materials()) == 0) by {
            reveal_with_fuel(counted_over, 11);
        }
    } else {
        let rest = blocks.drop_last();
        let b = blocks.last();
        law_material_counts_total(rest);
        assert(rest.push(b) =~= blocks);
        lemma_counted_over_push(rest, b, all_materials());
        let ms = all_materials();
        assert(ms.filter(|m: Material| m == b.material).len() == 1) by {
            reveal_with_fuel(Seq::filter, 11);
            assert(ms.filter(|m: Material| m == b.material) =~= seq![b.material]);
        }
    }
}

/// Saving a blueprint makes it what a load of its name returns, and leaves what every
/// other name loads unchanged. `before` and `after` are the library before and after
/// `BlueprintLib::save(bp)`, whose contract gives the `requires`; `BlueprintLib::load`
/// returns what the view holds under the name.
pub proof fn law_load_after_save(
    before: BlueprintLib,
    after: BlueprintLib,
    bp: Blueprint,
    other: Seq<char>,
)
    requires
        after@ == before@.insert(bp.name@, bp),
    ensures
        after@.dom().contains(bp.name@),
        after@[bp.name@] == bp,
        other != bp.name@ ==> (after@.dom().contains(other) <==> before@.dom().contains(other)),
        other != bp.name@ && before@.dom().contains(other) ==> after@[other] == before@[other],
{
}

/// Loading a name after a sequence of saves into a new library gives the blueprint saved
/// last under that name, and nothing where no saved blueprint had that name. `libs[i]` is
/// the library after the first `i` saves: `libs[0]` is what `BlueprintLib::new` gives, and
/// each step is what `BlueprintLib::save(saved[i])` gives.
pub proof fn law_load_after_saves(libs: Seq<BlueprintLib>, saved: Seq<Blueprint>, name: Seq<char>)
    requires
        libs.len() == saved.len() + 1,
        libs[0]@ == Map::<Seq<char>, Blueprint>::empty(),
        forall|i: int|
            0 <= i < saved.len() ==> libs[i + 1]@ == libs[i]@.insert(
                (#[trigger] saved[i]).name@,
                saved[i],
            ),
    ensures
        libs.last()@.dom().contains(name) <==> exists|i: int|
            0 <= i < saved.len() && (#[trigger] saved[i]).name@ == name,
        libs.last()@.dom().contains(name) ==> exists|j: int|
            0 <= j < saved.len() && saved[j].name@ == name && libs.last()@[name] == saved[j]
                && forall|k: int| j < k < saved.len() ==> (#[trigger] saved[k]).name@ != name,
    decreases saved.len(),
{
    let n = saved.len() as int;
    if n > 0 {
        let libs0 = libs.drop_last();
        let saved0 = saved.drop_last();
        assert forall|i: int| 0 <= i < saved0.len() implies libs0[i + 1]@ == libs0[i]@.insert(
            (#[trigger] saved0[i]).name@,
            saved0[i],
        ) by {
            assert(saved[i] == saved0[i]);
        }
        law_load_after_saves(libs0, saved0, name);
        let last = saved[n - 1];
        assert(libs.last()@ == libs0.last()@.insert(last.name@, last)) by {
            assert(libs[n] == libs.last());
            assert(libs[n - 1] == libs0.last());
            assert(saved[n - 1] == last);
        }
        if last.name@ == name {
            assert(saved[n - 1].name@ == name);
        } else {
            if libs0.last()@.dom().contains(name) {
                let j = choose|j: int|
                    0 <= j < saved0.len() && saved0[j].name@ == name && libs0.last()@[name]
                        == saved0[j] && forall|k: int|
                        j < k < saved0.len() ==> (#[trigger] saved0[k]).name@ != name;
                assert(saved[j] == saved0[j]);
                assert forall|k: int| j < k < saved.len() implies (#[trigger] saved[k]).name@
                    != name by {
                    if k < n - 1 {
                        assert(saved0[k] == saved[k]);
                    }
                }
            }
            if exists|i: int| 0 <= i < saved.len() && (#[trigger] saved[i]).name@ == name {
                let i = choose|i: int| 0 <= i < saved.len() && (#[trigger] saved[i]).name@ == name;
                assert(saved0[i] == saved[i]);
            }
        }
    }
}

/// A new blueprint followed by a sequence of block additions holds exactly the added
/// blocks, in order, so its block count is the number of additions. `states[i]` is the
/// blueprint after the first `i` additions: `states[0]` is what `Blueprint::new` gives, and
/// each step is what `Blueprint::add_block(added[i])` gives; `Blueprint::block_count`
/// returns the length of the block list.
pub proof fn law_block_count_after_adds(states: Seq<Blueprint>, added: Seq<BlueprintBlock>)
    requires
        states.len() == added.len() + 1,
        states[0].blocks@ == Seq::<BlueprintBlock>::empty(),
        forall|i: int|
            0 <= i < added.len() ==> states[i + 1].blocks@ == states[i].blocks@.push(
                #[trigger] added[i],
            ),
    ensures
        states.last().blocks@ == added,
        states.last().blocks@.len() == added.len(),
    decreases added.len(),
{
    let n = added.len() as int;
    if n == 0 {
        assert(states.last().blocks@ =~= added);
    } else {
        let states0 = states.drop_last();
        let added0 = added.drop_last();
        assert forall|i: int| 0 <= i < added0.len() implies states0[i + 1].blocks@
            == states0[i].blocks@.push(#[trigger] added0[i]) by {
            assert(added[i] == added0[i]);
        }
        law_block_count_after_adds(states0, added0);
        assert(states[n].blocks@ == states[n - 1].blocks@.push(added[n - 1]));
        assert(states.last().blocks@ =~= added);
    }
}

/// No position is floating exactly when every block is connected to the ground.
pub proof fn law_floating_iff_unreachable(blocks: Seq<BlueprintBlock>)
    ensures
        floating_count(blocks) == 0 <==> forall|p: Position|
            occupies(blocks, p) ==> #[trigger] grounded(position_set(blocks), p),
{
    let occupied = position_set(blocks);
    let floating = occupied.filter(|p: Position| !grounded(occupied, p));
    lemma_position_set_finite(blocks);
    vstd::set_lib::lemma_len_subset(floating, occupied);
    vstd::set_lib::lemma_set_empty_equivalency_len(floating);
    if floating_count(blocks) == 0 {
        assert forall|p: Position| occupies(blocks, p) implies #[trigger] grounded(occupied, p) by {
            if !grounded(occupied, p) {
                assert(floating.contains(p));
            }
        }
    } else {
        let p = choose|p: Position| floating.contains(p);
        assert(occupies(blocks, p) && !grounded(occupied, p));
    }
}

/// A blueprint validates without errors exactly when it has at least one and at most
/// `MAX_BLOCKS` blocks, a block at ground level, and every block connected to the ground
/// through face-adjacent blocks.
pub proof fn law_valid_iff_sound(blocks: Seq<BlueprintBlock>)
    ensures
        expected_errors(blocks).len() == 0 <==> {
            &&& blocks.len() > 0
            &&& blocks.len() <= MAX_BLOCKS
            &&& has_foundation(blocks)
            &&& forall|p: Position|
                occupies(blocks, p) ==> #[trigger] grounded(position_set(blocks), p)
        },
{
    law_floating_iff_unreachable(blocks);
}

/// A blueprint whose blocks all lie strictly inside the `i32` range meets the requirement of
/// `StructureValidator::validate`.
pub proof fn lemma_interior_blocks_meet_requirement(blocks: Seq<BlueprintBlock>)
    requires
        forall|i: int| 0 <= i < blocks.len() ==> is_interior(#[trigger] blocks[i].position),
    ensures
        grounded_interior(position_set(blocks)),
{
    assert forall|p: Position| #[trigger] grounded(position_set(blocks), p) implies is_interior(
        p,
    ) by {
        crate::connectivity::lemma_grounded_is_occupied(position_set(blocks), p);
        let i = choose|i: int| 0 <= i < blocks.len() && #[trigger] blocks[i].position == p;
        assert(is_interior(blocks[i].position));
    }
}

/// Some block is made of `m`.
pub open spec fn has_block_of(blocks: Seq<BlueprintBlock>, m: Material) -> bool {
    exists|i: int| 0 <= i < blocks.len() && (#[trigger] blocks[i]).material == m
}

/// The blocks made of `m`, in order.
pub open spec fn blocks_of(blocks: Seq<BlueprintBlock>, m: Material) -> Seq<BlueprintBlock> {
    blocks.filter(|b: BlueprintBlock| b.material == m)
}

/// The count of a material is the number of blocks made of it, and it is positive
/// exactly when some block is made of it.
pub proof fn law_tally_counts_blocks(blocks: Seq<BlueprintBlock>, m: Material)
    ensures
        tally(blocks, m) == blocks_of(blocks, m).len(),
        tally(blocks, m) > 0 <==> has_block_of(blocks, m),
    decreases blocks.len(),
{
    reveal_with_fuel(Seq::filter, 1);
    if blocks.len() > 0 {
        let rest = blocks.drop_last();
        law_tally_counts_blocks(rest, m);
        if has_block_of(blocks, m) && !has_block_of(rest, m) {
            let i = choose|i: int| 0 <= i < blocks.len() && (#[trigger] blocks[i]).material == m;
            if i < rest.len() {
                assert(rest[i] == blocks[i]);
            }
        }
        if has_block_of(rest, m) {
            let i = choose|i: int| 0 <= i < rest.len() && (#[trigger] rest[i]).material == m;
            assert(blocks[i] == rest[i]);
        }
        if blocks.last().material == m {
            assert(blocks[blocks.len() - 1].material == m);
        }
    }
}

/// The three warning texts differ from one another.
proof fn lemma_warnings_distinct()
    ensures
        steam_warning() != fire_warning(),
        steam_warning() != fragile_warning(),
        fire_warning() != fragile_warning(),
{
    reveal_strlit("Lava and Water in the same blueprint may cause steam explosions");
    reveal_strlit("Wood and Lava adjacent — fire hazard!");
    reveal_strlit("More than half the blocks are Glass — fragile!");
    assert(steam_warning()[0] != fire_warning()[0]);
    assert(steam_warning()[0] != fragile_warning()[0]);
    assert(fire_warning()[0] != fragile_warning()[0]);
}

/// Validation warns of steam exactly when the blueprint holds both a lava block and a
/// water block; of fire exactly when it holds both a wood block and a lava block; of
/// fragility exactly when more than half of its blocks are glass. Each warning appears at
/// most once, and an empty blueprint gets none.
pub proof fn law_warnings_match_materials(blocks: Seq<BlueprintBlock>)
    ensures
        expected_warnings(blocks).contains(steam_warning()) <==> has_block_of(
            blocks,
            Material::Lava,
        ) && has_block_of(blocks, Material::Water),
        expected_warnings(blocks).contains(fire_warning()) <==> has_block_of(
            blocks,
            Material::Wood,
        ) && has_block_of(blocks, Material::Lava),
        expected_warnings(blocks).contains(fragile_warning()) <==> 2 * blocks_of(
            blocks,
            Material::Glass,
        ).len() > blocks.len(),
        expected_warnings(blocks).no_duplicates(),
        blocks.len() == 0 ==> expected_warnings(blocks).len() == 0,
{
    law_tally_counts_blocks(blocks, Material::Lava);
    law_tally_counts_blocks(blocks, Material::Water);
    law_tally_counts_blocks(blocks, Material::Wood);
    law_tally_counts_blocks(blocks, Material::Glass);
    lemma_warnings_distinct();
    let t = tally(blocks, Material::Glass) as int;
    let n = blocks.len() as int;
    assert(t > n / 2 <==> 2 * t > n);
    if blocks.len() > 0 {
        lemma_three_messages(
            tally(blocks, Material::Lava) > 0 && tally(blocks, Material::Water) > 0,
            tally(blocks, Material::Wood) > 0 && tally(blocks, Material::Lava) > 0,
            tally(blocks, Material::Glass) > blocks.len() / 2,
            steam_warning(),
            fire_warning(),
            fragile_warning(),
        );
    }
}

/// Up to three distinct messages, each present exactly when its condition holds, at most once.
proof fn lemma_three_messages(
    c1: bool,
    c2: bool,
    c3: bool,
    x: Seq<char>,
    y: Seq<char>,
    z: Seq<char>,
)
    requires
        x != y,
        x != z,
        y != z,
    ensures
        ({
            let w = message_if(c1, x) + message_if(c2, y) + message_if(c3, z);
            &&& w.contains(x) <==> c1
            &&& w.contains(y) <==> c2
            &&& w.contains(z) <==> c3
            &&& w.no_duplicates()
        }),
{
    let w = message_if(c1, x) + message_if(c2, y) + message_if(c3, z);
    let mut e: Seq<Seq<char>> = Seq::empty();
    if c1 {
        e = e.push(x);
    }
    if c2 {
        e = e.push(y);
    }
    if c3 {
        e = e.push(z);
    }
    assert(w =~= e);
    assert(forall|k: int| 0 <= k < e.len() ==> (e[k] == x ==> c1) && (e[k] == y ==> c2) && (e[k]
        == z ==> c3));
    if c1 {
        assert(e[0] == x);
    }
    if c2 {
        assert(e[if c1 { 1int } else { 0int }] == y);
    }
    if c3 {
        assert(e[e.len() - 1] == z);
    }
}

/// A text in which every ASCII upper-case letter is folded to lower case.
pub open spec fn folded(s: Seq<char>) -> Seq<char> {
    s.map_values(|c: char| ascii_lower(c))
}

/// Folding changes exactly the ASCII upper-case letters, each to a lower-case letter, and
/// folding twice is folding once.
pub proof fn law_ascii_lower_folds_letters(c: char)
    ensures
        (ascii_lower(c) != c) <==> 65 <= c as int <= 90,
        65 <= c as int <= 90 ==> 97 <= ascii_lower(c) as int <= 122,
        ascii_lower(ascii_lower(c)) == ascii_lower(c),
{
}

/// Two texts match, ignoring ASCII case, exactly when folding both gives the same text;
/// so matching is reflexive and symmetric, and every text matches its folded form.
pub proof fn law_case_insensitive_match(a: Seq<char>, b: Seq<char>)
    ensures
        eq_ignoring_ascii_case(a, b) <==> folded(a) == folded(b),
        eq_ignoring_ascii_case(a, a),
        eq_ignoring_ascii_case(a, b) ==> eq_ignoring_ascii_case(b, a),
        eq_ignoring_ascii_case(a, folded(a)),
{
    if eq_ignoring_ascii_case(a, b) {
        assert(folded(a) =~= folded(b));
    }
    if folded(a) == folded(b) {
        assert(a.len() == folded(a).len() && folded(b).len() == b.len());
        assert forall|i: int| 0 <= i < a.len() implies ascii_lower(#[trigger] a[i]) == ascii_lower(
            b[i],
        ) by {
            assert(folded(a)[i] == folded(b)[i]);
        }
    }
    assert forall|i: int| 0 <= i < a.len() implies ascii_lower(#[trigger] a[i]) == ascii_lower(
        folded(a)[i],
    ) by {
        law_ascii_lower_folds_letters(a[i]);
    }
}

/// A blueprint matches a tag query exactly when one of its tags, folded, equals the
/// folded query.
pub proof fn law_has_tag_folds_both_sides(bp: Blueprint, tag: Seq<char>)
    ensures
        crate::library::has_tag(bp, tag) <==> exists|t: int|
            0 <= t < bp.tags@.len() && folded(#[trigger] bp.tags@[t]@) == folded(tag),
{
    if crate::library::has_tag(bp, tag) {
        let t = choose|t: int|
            0 <= t < bp.tags@.len() && eq_ignoring_ascii_case(#[trigger] bp.tags@[t]@, tag);
        law_case_insensitive_match(bp.tags@[t]@, tag);
    }
    if exists|t: int| 0 <= t < bp.tags@.len() && folded(#[trigger] bp.tags@[t]@) == folded(tag) {
        let t = choose|t: int| 0 <= t < bp.tags@.len() && folded(#[trigger] bp.tags@[t]@) == folded(tag);
        law_case_insensitive_match(bp.tags@[t]@, tag);
    }
}

/// The number that a text of decimal digits denotes.
pub open spec fn digits_value(s: Seq<char>) -> int
    decreases s.len(),
{
    if s.len() == 0 {
        0
    } else {
        digits_value(s.drop_last()) * 10 + (s.last() as int - 48)
    }
}

/// The decimal text of `n` is a non-empty string of digits `0`–`9` that denotes `n`, with
/// no leading zero unless `n` is zero.
pub proof fn law_decimal_denotes(n: nat)
    ensures
        decimal(n).len() >= 1,
        forall|i: int| 0 <= i < decimal(n).len() ==> 48 <= #[trigger] decimal(n)[i] as int <= 57,
        digits_value(decimal(n)) == n,
        decimal(n)[0] == '0' ==> n == 0,
    decreases n,
{
    if n >= 10 {
        law_decimal_denotes(n / 10);
        let s = decimal(n);
        assert(s.drop_last() =~= decimal(n / 10));
        assert(s[0] == decimal(n / 10)[0]);
        assert forall|i: int| 0 <= i < s.len() implies 48 <= #[trigger] s[i] as int <= 57 by {
            if i < s.len() - 1 {
                assert(s[i] == decimal(n / 10)[i]);
            }
        }
    } else {
        assert(digits_value(decimal(n).drop_last()) == 0) by {
            assert(decimal(n).drop_last().len() == 0);
        }
    }
}

} // verus!
