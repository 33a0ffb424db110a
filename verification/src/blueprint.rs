use vstd::prelude::*;

use crate::connectivity::{grounded_interior, is_interior, position_set};
use crate::material::{all_materials, material_index, Material, MATERIAL_COUNT};

verus! {

/// A voxel position `(x, y, z)`; `y` is the height, `y == 0` is ground level.
pub type Position = (i32, i32, i32);

/// One coordinate of a position: `0` for x, `1` for y, `2` for z.
pub open spec fn coord(p: Position, axis: int) -> int {
    if axis == 0 {
        p.0 as int
    } else if axis == 1 {
        p.1 as int
    } else {
        p.2 as int
    }
}

/// Whether some block stands at `pos`.
pub open spec fn occupies(blocks: Seq<BlueprintBlock>, pos: Position) -> bool {
    exists|i: int| 0 <= i < blocks.len() && #[trigger] blocks[i].position == pos
}

/// Compares two positions coordinate by coordinate.
pub(crate) fn same_position(a: Position, b: Position) -> (r: bool)
    ensures
        r == (a == b),
{
    a.0 == b.0 && a.1 == b.1 && a.2 == b.2
}

/// A single block within a blueprint.
#[derive(Debug, Clone, Copy, PartialEq, Eq)]
pub struct BlueprintBlock {
    pub position: Position,
    pub material: Material,
    /// Rotation in quarter-turns (0–3).
    pub rotation: u8,
}

impl BlueprintBlock {
    /// Makes a block; the rotation is reduced to quarter-turns `0..=3`.
    pub fn new(position: Position, material: Material, rotation: u8) -> (b: Self)
        ensures
            b.position == position,
            b.material == material,
            b.rotation == rotation % 4,
    {
        let rotation = rotation % 4;
        Self { position, material, rotation }
    }
}

/// A named building plan composed of blocks.
#[derive(Debug)]
pub struct Blueprint {
    pub name: String,
    pub blocks: Vec<BlueprintBlock>,
    pub author: String,
    pub version: u32,
    pub tags: Vec<String>,
}

/// `b` holds the same name, blocks, author, version and tags as `a`.
pub open spec fn same_content(a: Blueprint, b: Blueprint) -> bool {
    &&& b.name@ == a.name@
    &&& b.blocks@ == a.blocks@
    &&& b.author@ == a.author@
    &&& b.version == a.version
    &&& b.tags@ == a.tags@
}

impl Clone for Blueprint {
    fn clone(&self) -> (r: Self)
        ensures
            same_content(*self, r),
    {
        let blocks = self.blocks.clone();
        let tags = self.tags.clone();
        proof {
            assert(blocks@ =~= self.blocks@);
            assert(tags@ =~= self.tags@);
        }
        Blueprint {
            name: self.name.clone(),
            blocks,
            author: self.author.clone(),
            version: self.version,
            tags,
        }
    }
}

/// The text of each string.
pub open spec fn texts(tags: Seq<String>) -> Seq<Seq<char>> {
    tags.map_values(|t: String| t@)
}

/// Name, author, version and tags agree.
pub open spec fn same_metadata(a: Blueprint, b: Blueprint) -> bool {
    &&& a.name == b.name
    &&& a.author == b.author
    &&& a.version == b.version
    &&& a.tags == b.tags
}

/// The smallest value of one coordinate over the blocks, which some block attains.
pub open spec fn is_least_coord(blocks: Seq<BlueprintBlock>, axis: int, v: int) -> bool {
    &&& forall|i: int| 0 <= i < blocks.len() ==> v <= coord(#[trigger] blocks[i].position, axis)
    &&& exists|i: int| 0 <= i < blocks.len() && coord(#[trigger] blocks[i].position, axis) == v
}

/// The largest value of one coordinate over the blocks, which some block attains.
pub open spec fn is_greatest_coord(blocks: Seq<BlueprintBlock>, axis: int, v: int) -> bool {
    &&& forall|i: int| 0 <= i < blocks.len() ==> coord(#[trigger] blocks[i].position, axis) <= v
    &&& exists|i: int| 0 <= i < blocks.len() && coord(#[trigger] blocks[i].position, axis) == v
}

/// `(lo, hi)` are the opposite corners of the bounding box of the blocks.
pub open spec fn is_bounding_box(blocks: Seq<BlueprintBlock>, lo: Position, hi: Position) -> bool {
    forall|axis: int|
        0 <= axis < 3 ==> is_least_coord(blocks, axis, #[trigger] coord(lo, axis))
            && is_greatest_coord(blocks, axis, coord(hi, axis))
}

/// The sum of one coordinate over all blocks.
pub open spec fn coord_sum(blocks: Seq<BlueprintBlock>, axis: int) -> int
    decreases blocks.len(),
{
    if blocks.len() == 0 {
        0
    } else {
        coord_sum(blocks.drop_last(), axis) + coord(blocks.last().position, axis)
    }
}

/// Every running sum of each coordinate, adding the blocks in order, lies in the `i64` range.
pub open spec fn sums_fit_i64(blocks: Seq<BlueprintBlock>) -> bool {
    forall|k: int, a: int|
        0 <= k <= blocks.len() && 0 <= a < 3 ==> i64::MIN <= #[trigger] coord_sum(blocks.take(k), a)
            <= i64::MAX
}

/// The number of blocks made of `m`.
pub open spec fn tally(blocks: Seq<BlueprintBlock>, m: Material) -> nat
    decreases blocks.len(),
{
    if blocks.len() == 0 {
        0
    } else {
        tally(blocks.drop_last(), m) + if blocks.last().material == m {
            1nat
        } else {
            0nat
        }
    }
}

/// How many blocks of each material a blueprint holds.
#[derive(Debug, Clone)]
pub struct MaterialCounts {
    counts: Vec<usize>,
}

impl MaterialCounts {
    /// The number of blocks of material `m`.
    pub closed spec fn count(&self, m: Material) -> nat {
        let k = material_index(m) as int;
        if k < self.counts@.len() {
            self.counts@[k] as nat
        } else {
            0
        }
    }

    /// The count of `m`, or `None` where no block is made of it.
    pub fn get(&self, m: &Material) -> (r: Option<usize>)
        ensures
            r is Some <==> self.count(*m) > 0,
            r matches Some(c) ==> c == self.count(*m),
    {
        let k = m.index();
        if k < self.counts.len() && self.counts[k] > 0 {
            Some(self.counts[k])
        } else {
            None
        }
    }

    /// Whether some block is made of `m`.
    pub fn contains_key(&self, m: &Material) -> (r: bool)
        ensures
            r == (self.count(*m) > 0),
    {
        let k = m.index();
        k < self.counts.len() && self.counts[k] > 0
    }

    /// The number of distinct materials in use.
    pub fn len(&self) -> (r: usize)
        ensures
            r == present_among(*self, all_materials()),
    {
        let mut r: usize = 0;
        let mut k: usize = 0;
        while k < MATERIAL_COUNT
            invariant
                k <= MATERIAL_COUNT,
                r <= k,
                r == present_among(*self, all_materials().take(k as int)),
            decreases MATERIAL_COUNT - k,
        {
            let m = Material::from_index(k);
            assert(all_materials().take(k + 1).drop_last() =~= all_materials().take(k as int));
            if self.contains_key(&m) {
                r = r + 1;
            }
            k = k + 1;
        }
        assert(all_materials().take(MATERIAL_COUNT as int) =~= all_materials());
        r
    }

    /// Each material in use with its count, in declaration order.
    pub fn entries(&self) -> (r: Vec<(Material, usize)>)
        ensures
            r@.map_values(|e: (Material, usize)| entry_nat(e)) == present_entries(
                *self,
                all_materials(),
            ),
    {
        let mut r: Vec<(Material, usize)> = Vec::new();
        let mut k: usize = 0;
        while k < MATERIAL_COUNT
            invariant
                k <= MATERIAL_COUNT,
                r@.map_values(|e: (Material, usize)| entry_nat(e)) == present_entries(
                    *self,
                    all_materials().take(k as int),
                ),
            decreases MATERIAL_COUNT - k,
        {
            let m = Material::from_index(k);
            assert(all_materials().take(k + 1).drop_last() =~= all_materials().take(k as int));
            let ghost before = r@;
            match self.get(&m) {
                Some(c) => {
                    r.push((m, c));
                    assert(r@.map_values(|e: (Material, usize)| entry_nat(e)) =~= before.map_values(
                        |e: (Material, usize)| entry_nat(e),
                    ).push((m, self.count(m))));
                },
                None => {},
            }
            k = k + 1;
        }
        assert(all_materials().take(MATERIAL_COUNT as int) =~= all_materials());
        r
    }
}

/// The materials of `ms` of which `c` counts at least one block, in the order of `ms`,
/// each with its count.
pub open spec fn present_entries(c: MaterialCounts, ms: Seq<Material>) -> Seq<(Material, nat)>
    decreases ms.len(),
{
    if ms.len() == 0 {
        Seq::empty()
    } else if c.count(ms.last()) > 0 {
        present_entries(c, ms.drop_last()).push((ms.last(), c.count(ms.last())))
    } else {
        present_entries(c, ms.drop_last())
    }
}

/// An entry's count as a natural number.
pub open spec fn entry_nat(e: (Material, usize)) -> (Material, nat) {
    (e.0, e.1 as nat)
}

/// The number of materials of `ms` of which `c` counts at least one block.
pub open spec fn present_among(c: MaterialCounts, ms: Seq<Material>) -> nat
    decreases ms.len(),
{
    if ms.len() == 0 {
        0
    } else {
        present_among(c, ms.drop_last()) + if c.count(ms.last()) > 0 {
            1nat
        } else {
            0nat
        }
    }
}

impl Blueprint {
    /// An empty blueprint, at version 1, without tags.
    pub fn new(name: &str, author: &str) -> (bp: Self)
        ensures
            bp.name@ == name@,
            bp.blocks@ == Seq::<BlueprintBlock>::empty(),
            bp.author@ == author@,
            bp.version == 1,
            bp.tags@ == Seq::<String>::empty(),
    {
        Self {
            name: name.to_owned(),
            blocks: Vec::new(),
            author: author.to_owned(),
            version: 1,
            tags: Vec::new(),
        }
    }

    /// Appends a block.
    pub fn add_block(&mut self, block: BlueprintBlock)
        ensures
            final(self).blocks@ == old(self).blocks@.push(block),
            same_metadata(*final(self), *old(self)),
    {
        self.blocks.push(block);
    }

    /// Removes every block at `pos`; tells whether there was one.
    pub fn remove_block(&mut self, pos: Position) -> (removed: bool)
        ensures
            final(self).blocks@ == old(self).blocks@.filter(|b: BlueprintBlock| b.position != pos),
            removed == occupies(old(self).blocks@, pos),
            same_metadata(*final(self), *old(self)),
    {
        let ghost pred = |b: BlueprintBlock| b.position != pos;
        let mut kept: Vec<BlueprintBlock> = Vec::new();
        let mut found = false;
        let n = self.blocks.len();
        let mut i: usize = 0;
        while i < n
            invariant
                n == self.blocks@.len(),
                i <= n,
                pred == (|b: BlueprintBlock| b.position != pos),
                kept@ == self.blocks@.take(i as int).filter(pred),
                found == occupies(self.blocks@.take(i as int), pos),
            decreases n - i,
        {
            let b = self.blocks[i];
            assert(self.blocks@.take(i + 1).drop_last() =~= self.blocks@.take(i as int));
            reveal_with_fuel(Seq::filter, 1);
            assert(self.blocks@.take(i + 1).last() == b);
            if same_position(b.position, pos) {
                found = true;
            } else {
                kept.push(b);
            }
            assert(found == occupies(self.blocks@.take(i + 1), pos)) by {
                if occupies(self.blocks@.take(i as int), pos) {
                    let j = choose|j: int|
                        0 <= j < i && #[trigger] self.blocks@.take(i as int)[j].position == pos;
                    assert(self.blocks@.take(i + 1)[j].position == pos);
                }
                if occupies(self.blocks@.take(i + 1), pos) {
                    let j = choose|j: int|
                        0 <= j < i + 1 && #[trigger] self.blocks@.take(i + 1)[j].position == pos;
                    if j < i {
                        assert(self.blocks@.take(i as int)[j].position == pos);
                    }
                }
            }
            i = i + 1;
        }
        assert(self.blocks@.take(n as int) =~= self.blocks@);
        self.blocks = kept;
        found
    }

    /// The number of blocks.
    pub fn block_count(&self) -> (r: usize)
        ensures
            r == self.blocks@.len(),
    {
        self.blocks.len()
    }

    /// Whether every block lies strictly inside the `i32` range; where it does, the
    /// blueprint meets the requirement of `StructureValidator::validate`.
    pub fn all_interior(&self) -> (r: bool)
        ensures
            r == (forall|i: int|
                0 <= i < self.blocks@.len() ==> is_interior(#[trigger] self.blocks@[i].position)),
            r ==> grounded_interior(position_set(self.blocks@)),
    {
        let n = self.blocks.len();
        let mut i: usize = 0;
        while i < n
            invariant
                n == self.blocks@.len(),
                i <= n,
                forall|j: int| 0 <= j < i ==> is_interior(#[trigger] self.blocks@[j].position),
            decreases n - i,
        {
            let p = self.blocks[i].position;
            if p.0 == i32::MIN || p.0 == i32::MAX || p.1 == i32::MIN || p.1 == i32::MAX
                || p.2 == i32::MIN || p.2 == i32::MAX {
                assert(!is_interior(self.blocks@[i as int].position));
                return false;
            }
            i = i + 1;
        }
        proof {
            crate::laws::lemma_interior_blocks_meet_requirement(self.blocks@);
        }
        true
    }

    /// Returns `(min_corner, max_corner)` of the bounding box.
    pub fn bounds(&self) -> (r: (Position, Position))
        requires
            self.blocks@.len() > 0,
        ensures
            is_bounding_box(self.blocks@, r.0, r.1),
    {
        let blocks = &self.blocks;
        let n = blocks.len();
        let first = blocks[0].position;
        let mut lo = first;
        let mut hi = first;
        let ghost mut w: Seq<int> = seq![0int, 0int, 0int, 0int, 0int, 0int];
        let mut i: usize = 1;
        while i < n
            invariant
                n == blocks@.len(),
                1 <= i <= n,
                w.len() == 6,
                forall|a: int|
                    0 <= a < 3 ==> 0 <= #[trigger] w[a] < i && coord(blocks@[w[a]].position, a)
                        == coord(lo, a),
                forall|a: int|
                    0 <= a < 3 ==> 0 <= #[trigger] w[a + 3] < i && coord(
                        blocks@[w[a + 3]].position,
                        a,
                    ) == coord(hi, a),
                forall|j: int, a: int|
                    0 <= j < i && 0 <= a < 3 ==> coord(lo, a) <= #[trigger] coord(
                        blocks@[j].position,
                        a,
                    ) <= coord(hi, a),
            decreases n - i,
        {
            let p = blocks[i].position;
            if p.0 < lo.0 {
                lo.0 = p.0;
                proof {
                    w = w.update(0, i as int);
                }
            }
            if p.1 < lo.1 {
                lo.1 = p.1;
                proof {
                    w = w.update(1, i as int);
                }
            }
            if p.2 < lo.2 {
                lo.2 = p.2;
                proof {
                    w = w.update(2, i as int);
                }
            }
            if p.0 > hi.0 {
                hi.0 = p.0;
                proof {
                    w = w.update(3, i as int);
                }
            }
            if p.1 > hi.1 {
                hi.1 = p.1;
                proof {
                    w = w.update(4, i as int);
                }
            }
            if p.2 > hi.2 {
                hi.2 = p.2;
                proof {
                    w = w.update(5, i as int);
                }
            }
            i = i + 1;
        }
        assert forall|a: int| 0 <= a < 3 implies is_least_coord(blocks@, a, #[trigger] coord(lo, a))
            && is_greatest_coord(blocks@, a, coord(hi, a)) by {
            assert(coord(blocks@[w[a]].position, a) == coord(lo, a));
            assert(coord(blocks@[w[a + 3]].position, a) == coord(hi, a));
            assert forall|j: int| 0 <= j < blocks@.len() implies coord(lo, a) <= coord(
                #[trigger] blocks@[j].position,
                a,
            ) <= coord(hi, a) by {}
        }
        (lo, hi)
    }

    /// The sums of the block positions, coordinate by coordinate, or `None` where a running
    /// sum (adding the blocks in order) leaves the `i64` range.
    pub fn checked_position_sum(&self) -> (r: Option<(i64, i64, i64)>)
        ensures
            r is Some <==> sums_fit_i64(self.blocks@),
            r matches Some(s) ==> {
                &&& s.0 == coord_sum(self.blocks@, 0)
                &&& s.1 == coord_sum(self.blocks@, 1)
                &&& s.2 == coord_sum(self.blocks@, 2)
            },
    {
        let blocks = &self.blocks;
        let n = blocks.len();
        let mut sx: i64 = 0;
        let mut sy: i64 = 0;
        let mut sz: i64 = 0;
        let mut i: usize = 0;
        while i < n
            invariant
                blocks@ == self.blocks@,
                n == blocks@.len(),
                i <= n,
                sx == coord_sum(blocks@.take(i as int), 0),
                sy == coord_sum(blocks@.take(i as int), 1),
                sz == coord_sum(blocks@.take(i as int), 2),
                forall|k: int, a: int|
                    0 <= k <= i && 0 <= a < 3 ==> i64::MIN <= #[trigger] coord_sum(
                        blocks@.take(k),
                        a,
                    ) <= i64::MAX,
            decreases n - i,
        {
            let p = blocks[i].position;
            assert(blocks@.take(i + 1).drop_last() =~= blocks@.take(i as int));
            let nx: i128 = sx as i128 + p.0 as i128;
            let ny: i128 = sy as i128 + p.1 as i128;
            let nz: i128 = sz as i128 + p.2 as i128;
            let too_small: i128 = i64::MIN as i128;
            let too_large: i128 = i64::MAX as i128;
            if nx < too_small || nx > too_large {
                assert(coord_sum(blocks@.take(i + 1), 0) == nx);
                assert(!sums_fit_i64(blocks@)) by {
                    assert(0 <= i + 1 <= blocks@.len() && 0 <= 0 < 3);
                }
                return None;
            }
            if ny < too_small || ny > too_large {
                assert(coord_sum(blocks@.take(i + 1), 1) == ny);
                assert(!sums_fit_i64(blocks@)) by {
                    assert(0 <= i + 1 <= blocks@.len() && 0 <= 1 < 3);
                }
                return None;
            }
            if nz < too_small || nz > too_large {
                assert(coord_sum(blocks@.take(i + 1), 2) == nz);
                assert(!sums_fit_i64(blocks@)) by {
                    assert(0 <= i + 1 <= blocks@.len() && 0 <= 2 < 3);
                }
                return None;
            }
            sx = nx as i64;
            sy = ny as i64;
            sz = nz as i64;
            proof {
                assert forall|k: int, a: int|
                    0 <= k <= i + 1 && 0 <= a < 3 implies i64::MIN <= #[trigger] coord_sum(
                        blocks@.take(k),
                        a,
                    ) <= i64::MAX by {
                    if k == i + 1 {
                        assert(coord_sum(blocks@.take(i + 1), 0) == sx);
                        assert(coord_sum(blocks@.take(i + 1), 1) == sy);
                        assert(coord_sum(blocks@.take(i + 1), 2) == sz);
                    }
                }
            }
            i = i + 1;
        }
        assert(blocks@.take(n as int) =~= blocks@);
        Some((sx, sy, sz))
    }

    /// The sums of the block positions, coordinate by coordinate.
    pub fn position_sum(&self) -> (r: (i64, i64, i64))
        requires
            sums_fit_i64(self.blocks@),
        ensures
            r.0 == coord_sum(self.blocks@, 0),
            r.1 == coord_sum(self.blocks@, 1),
            r.2 == coord_sum(self.blocks@, 2),
    {
        match self.checked_position_sum() {
            Some(sums) => sums,
            None => {
                proof {
                    assert(false);
                }
                (0, 0, 0)
            },
        }
    }

    /// How many blocks of each material the blueprint holds.
    pub fn material_count(&self) -> (r: MaterialCounts)
        ensures
            forall|m: Material| #[trigger] r.count(m) == tally(self.blocks@, m),
    {
        let blocks = &self.blocks;
        let n = blocks.len();
        let mut counts: Vec<usize> = Vec::new();
        let mut k: usize = 0;
        while k < MATERIAL_COUNT
            invariant
                k <= MATERIAL_COUNT,
                counts@.len() == k,
                forall|j: int| 0 <= j < k ==> counts@[j] == 0,
            decreases MATERIAL_COUNT - k,
        {
            counts.push(0);
            k = k + 1;
        }
        let mut i: usize = 0;
        while i < n
            invariant
                n == blocks@.len(),
                i <= n,
                counts@.len() == MATERIAL_COUNT,
                forall|j: int| 0 <= j < MATERIAL_COUNT ==> counts@[j] <= i,
                forall|m: Material|
                    counts@[material_index(m) as int] == #[trigger] tally(
                        blocks@.take(i as int),
                        m,
                    ),
            decreases n - i,
        {
            let m = blocks[i].material;
            let k = m.index();
            assert(blocks@.take(i + 1).drop_last() =~= blocks@.take(i as int));
            assert(blocks@.take(i + 1).last() == blocks@[i as int]);
            let c = counts[k];
            let ghost before = counts@;
            counts.set(k, c + 1);
            assert forall|m2: Material|
                counts@[material_index(m2) as int] == #[trigger] tally(
                    blocks@.take(i + 1),
                    m2,
                ) by {
                assert(before[material_index(m2) as int] == tally(blocks@.take(i as int), m2));
                if m2 != m {
                    assert(material_index(m2) != material_index(m));
                    assert(counts@[material_index(m2) as int] == before[material_index(m2) as int]);
                }
            }
            i = i + 1;
        }
        assert(blocks@.take(n as int) =~= blocks@);
        let r = MaterialCounts { counts };
        assert forall|m: Material| #[trigger] r.count(m) == tally(self.blocks@, m) by {
            assert(counts@[material_index(m) as int] == tally(blocks@.take(n as int), m));
        }
        r
    }
}

} // verus!
