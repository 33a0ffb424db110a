use vstd::prelude::*;

use crate::blueprint::{occupies, same_position, BlueprintBlock, Position};

verus! {

/// The set of positions at which some block stands.
pub open spec fn position_set(blocks: Seq<BlueprintBlock>) -> Set<Position> {
    Set::new(|p: Position| occupies(blocks, p))
}

/// `q` shares a face with `p`: they differ by one in exactly one coordinate.
pub open spec fn adjacent(p: Position, q: Position) -> bool {
    ||| q.0 == p.0 + 1 && q.1 == p.1 && q.2 == p.2
    ||| q.0 == p.0 - 1 && q.1 == p.1 && q.2 == p.2
    ||| q.0 == p.0 && q.1 == p.1 + 1 && q.2 == p.2
    ||| q.0 == p.0 && q.1 == p.1 - 1 && q.2 == p.2
    ||| q.0 == p.0 && q.1 == p.1 && q.2 == p.2 + 1
    ||| q.0 == p.0 && q.1 == p.1 && q.2 == p.2 - 1
}

/// A walk that starts at ground level (`y == 0`), visits only occupied positions and
/// moves between face-adjacent ones.
pub open spec fn is_ground_walk(occupied: Set<Position>, walk: Seq<Position>) -> bool {
    &&& walk.len() > 0
    &&& walk[0].1 == 0
    &&& forall|i: int| 0 <= i < walk.len() ==> occupied.contains(#[trigger] walk[i])
    &&& forall|i: int| 0 <= i < walk.len() - 1 ==> adjacent(#[trigger] walk[i], walk[i + 1])
}

/// `p` is reachable from a ground-level occupied position through face-adjacent
/// occupied positions.
pub open spec fn grounded(occupied: Set<Position>, p: Position) -> bool {
    exists|walk: Seq<Position>| #[trigger] is_ground_walk(occupied, walk) && walk.last() == p
}

/// No coordinate of `p` is at the edge of the `i32` range, so all six neighbors of `p`
/// can be written down.
pub open spec fn is_interior(p: Position) -> bool {
    &&& i32::MIN < p.0 < i32::MAX
    &&& i32::MIN < p.1 < i32::MAX
    &&& i32::MIN < p.2 < i32::MAX
}

/// Every grounded position of `occupied` has all six neighbors in range.
pub open spec fn grounded_interior(occupied: Set<Position>) -> bool {
    forall|p: Position| #[trigger] grounded(occupied, p) ==> is_interior(p)
}

/// `after` is `before` followed by new occupied positions adjacent to `p`, and holds
/// no duplicate where `before` held none.
pub open spec fn extends_around(
    occupied: Set<Position>,
    before: Seq<Position>,
    after: Seq<Position>,
    p: Position,
) -> bool {
    &&& before.len() <= after.len()
    &&& after.subrange(0, before.len() as int) == before
    &&& forall|j: int|
        before.len() <= j < after.len() ==> occupied.contains(#[trigger] after[j]) && adjacent(
            p,
            after[j],
        )
    &&& before.no_duplicates() ==> after.no_duplicates()
}

/// A ground-level occupied position is grounded.
pub proof fn lemma_ground_is_grounded(occupied: Set<Position>, p: Position)
    requires
        occupied.contains(p),
        p.1 == 0,
    ensures
        grounded(occupied, p),
{
    let walk = seq![p];
    assert(is_ground_walk(occupied, walk));
}

/// An occupied neighbor of a grounded position is grounded.
pub proof fn lemma_grounded_step(occupied: Set<Position>, p: Position, q: Position)
    requires
        grounded(occupied, p),
        occupied.contains(q),
        adjacent(p, q),
    ensures
        grounded(occupied, q),
{
    let walk = choose|walk: Seq<Position>| is_ground_walk(occupied, walk) && walk.last() == p;
    let longer = walk.push(q);
    assert forall|i: int| 0 <= i < longer.len() - 1 implies adjacent(
        #[trigger] longer[i],
        longer[i + 1],
    ) by {
        if i < walk.len() - 1 {
            assert(adjacent(walk[i], walk[i + 1]));
        }
    }
    assert forall|i: int| 0 <= i < longer.len() implies occupied.contains(#[trigger] longer[i]) by {
        if i < walk.len() {
            assert(occupied.contains(walk[i]));
        }
    }
    assert(is_ground_walk(occupied, longer));
}

/// A grounded position is occupied.
pub proof fn lemma_grounded_is_occupied(occupied: Set<Position>, p: Position)
    requires
        grounded(occupied, p),
    ensures
        occupied.contains(p),
{
    let walk = choose|walk: Seq<Position>| is_ground_walk(occupied, walk) && walk.last() == p;
    assert(occupied.contains(walk[walk.len() - 1]));
}

/// Every position of a ground walk lies in a set that holds every ground-level occupied
/// position and is closed under stepping to occupied neighbors.
proof fn lemma_walk_stays_in(
    occupied: Set<Position>,
    reached: Set<Position>,
    walk: Seq<Position>,
    k: int,
)
    requires
        forall|q: Position| occupied.contains(q) && q.1 == 0 ==> reached.contains(q),
        forall|a: Position, b: Position|
            #![trigger reached.contains(a), adjacent(a, b)]
            reached.contains(a) && occupied.contains(b) && adjacent(a, b) ==> reached.contains(b),
        is_ground_walk(occupied, walk),
        0 <= k < walk.len(),
    ensures
        reached.contains(walk[k]),
    decreases k,
{
    assert(occupied.contains(walk[k]));
    if k > 0 {
        lemma_walk_stays_in(occupied, reached, walk, k - 1);
        assert(adjacent(walk[k - 1], walk[k]));
    }
}

/// A set that holds every ground-level occupied position and is closed under stepping to
/// occupied neighbors holds every grounded position.
pub proof fn lemma_closed_holds_grounded(occupied: Set<Position>, reached: Set<Position>, p: Position)
    requires
        forall|q: Position| occupied.contains(q) && q.1 == 0 ==> reached.contains(q),
        forall|a: Position, b: Position|
            #![trigger reached.contains(a), adjacent(a, b)]
            reached.contains(a) && occupied.contains(b) && adjacent(a, b) ==> reached.contains(b),
        grounded(occupied, p),
    ensures
        reached.contains(p),
{
    let walk = choose|walk: Seq<Position>| is_ground_walk(occupied, walk) && walk.last() == p;
    lemma_walk_stays_in(occupied, reached, walk, walk.len() - 1);
}

/// Whether `ps` holds `p`.
pub(crate) fn holds_position(ps: &Vec<Position>, p: Position) -> (r: bool)
    ensures
        r == ps@.contains(p),
{
    let n = ps.len();
    let mut i: usize = 0;
    while i < n
        invariant
            n == ps@.len(),
            i <= n,
            forall|j: int| 0 <= j < i ==> ps@[j] != p,
        decreases n - i,
    {
        if same_position(ps[i], p) {
            assert(ps@[i as int] == p);
            return true;
        }
        i = i + 1;
    }
    false
}

/// The distinct positions of the blocks, in order of first appearance.
pub(crate) fn distinct_positions(blocks: &Vec<BlueprintBlock>) -> (ps: Vec<Position>)
    ensures
        ps@.no_duplicates(),
        ps@.to_set() == position_set(blocks@),
{
    let n = blocks.len();
    let mut ps: Vec<Position> = Vec::new();
    let mut i: usize = 0;
    while i < n
        invariant
            n == blocks@.len(),
            i <= n,
            ps@.no_duplicates(),
            forall|p: Position| #[trigger]
                ps@.contains(p) <==> occupies(blocks@.take(i as int), p),
        decreases n - i,
    {
        let p = blocks[i].position;
        let ghost before = ps@;
        if !holds_position(&ps, p) {
            ps.push(p);
            assert(ps@.last() == p);
        }
        assert forall|q: Position| #[trigger]
            ps@.contains(q) <==> occupies(blocks@.take(i + 1), q) by {
            if ps@.contains(q) {
                if q == p {
                    assert(blocks@.take(i + 1)[i as int].position == q);
                } else {
                    let k = choose|k: int| 0 <= k < ps@.len() && ps@[k] == q;
                    if k < before.len() {
                        assert(before[k] == q);
                        assert(before.contains(q));
                    }
                    let j = choose|j: int|
                        0 <= j < i && #[trigger] blocks@.take(i as int)[j].position == q;
                    assert(blocks@.take(i + 1)[j].position == q);
                }
            }
            if occupies(blocks@.take(i + 1), q) {
                let j = choose|j: int|
                    0 <= j < i + 1 && #[trigger] blocks@.take(i + 1)[j].position == q;
                if j < i {
                    assert(blocks@.take(i as int)[j].position == q);
                    assert(before.contains(q));
                    let k = choose|k: int| 0 <= k < before.len() && before[k] == q;
                    assert(ps@[k] == q);
                } else {
                    assert(q == p);
                    if before.contains(p) {
                        let k = choose|k: int| 0 <= k < before.len() && before[k] == p;
                        assert(ps@[k] == p);
                    } else {
                        assert(ps@[ps@.len() - 1] == p);
                    }
                }
            }
        }
        i = i + 1;
    }
    assert(blocks@.take(n as int) =~= blocks@);
    assert(ps@.to_set() =~= position_set(blocks@));
    ps
}

/// The ground-level positions among `ps`.
pub(crate) fn ground_positions(ps: &Vec<Position>) -> (g: Vec<Position>)
    requires
        ps@.no_duplicates(),
    ensures
        g@.no_duplicates(),
        forall|q: Position| #[trigger] g@.contains(q) <==> ps@.contains(q) && q.1 == 0,
{
    let n = ps.len();
    let mut g: Vec<Position> = Vec::new();
    let mut i: usize = 0;
    while i < n
        invariant
            n == ps@.len(),
            i <= n,
            ps@.no_duplicates(),
            g@.no_duplicates(),
            forall|q: Position| #[trigger]
                g@.contains(q) <==> ps@.take(i as int).contains(q) && q.1 == 0,
        decreases n - i,
    {
        let p = ps[i];
        let ghost before = g@;
        assert(ps@.take(i + 1) =~= ps@.take(i as int).push(p));
        if p.1 == 0 {
            assert(!ps@.take(i as int).contains(p)) by {
                if ps@.take(i as int).contains(p) {
                    let k = choose|k: int| 0 <= k < i && #[trigger] ps@.take(i as int)[k] == p;
                    assert(ps@[k] == ps@[i as int]);
                }
            }
            assert(!before.contains(p));
            g.push(p);
            assert(g@.no_duplicates()) by {
                assert forall|a: int, b: int|
                    0 <= a < g@.len() && 0 <= b < g@.len() && a != b implies g@[a] != g@[b] by {
                    if a == g@.len() - 1 {
                        assert(before.contains(g@[b]) ==> g@[b] != p);
                        assert(before[b] == g@[b]);
                    } else if b == g@.len() - 1 {
                        assert(before[a] == g@[a]);
                    } else {
                        assert(before[a] == g@[a] && before[b] == g@[b]);
                    }
                }
            }
            assert forall|q: Position| #[trigger]
                g@.contains(q) <==> ps@.take(i + 1).contains(q) && q.1 == 0 by {
                if g@.contains(q) {
                    if q == p {
                        assert(ps@.take(i + 1)[i as int] == p);
                    } else {
                        let k = choose|k: int| 0 <= k < g@.len() && g@[k] == q;
                        assert(k < before.len());
                        assert(before[k] == q);
                        assert(before.contains(q));
                        assert(ps@.take(i as int).contains(q));
                        let k2 = choose|k2: int| 0 <= k2 < i && #[trigger] ps@.take(i as int)[k2] == q;
                        assert(ps@.take(i + 1)[k2] == q);
                    }
                }
                if ps@.take(i + 1).contains(q) && q.1 == 0 {
                    let k = choose|k: int| 0 <= k < i + 1 && #[trigger] ps@.take(i + 1)[k] == q;
                    if k == i {
                        assert(g@[g@.len() - 1] == p);
                    } else {
                        assert(ps@.take(i as int)[k] == q);
                        assert(ps@.take(i as int).contains(q));
                        assert(before.contains(q));
                        let k2 = choose|k2: int| 0 <= k2 < before.len() && before[k2] == q;
                        assert(g@[k2] == q);
                    }
                }
            }
        } else {
            assert forall|q: Position| #[trigger]
                g@.contains(q) <==> ps@.take(i + 1).contains(q) && q.1 == 0 by {
                if ps@.take(i + 1).contains(q) && q.1 == 0 {
                    let k = choose|k: int| 0 <= k < i + 1 && #[trigger] ps@.take(i + 1)[k] == q;
                    if k < i {
                        assert(ps@.take(i as int)[k] == q);
                    }
                }
                if g@.contains(q) {
                    let k = choose|k: int| 0 <= k < i && #[trigger] ps@.take(i as int)[k] == q;
                    assert(ps@.take(i + 1)[k] == q);
                }
            }
        }
        i = i + 1;
    }
    assert(ps@.take(n as int) =~= ps@);
    g
}

/// Appends `q` to `visited` where `ps` holds it and `visited` does not yet.
fn visit(ps: &Vec<Position>, visited: &mut Vec<Position>, Ghost(p): Ghost<Position>, q: Position)
    requires
        adjacent(p, q),
    ensures
        extends_around(ps@.to_set(), old(visited)@, final(visited)@, p),
        ps@.contains(q) ==> final(visited)@.contains(q),
        forall|x: Position| old(visited)@.contains(x) ==> final(visited)@.contains(x),
{
    let ghost before = visited@;
    if holds_position(ps, q) && !holds_position(visited, q) {
        visited.push(q);
        assert(visited@[visited@.len() - 1] == q);
        assert(visited@.subrange(0, before.len() as int) =~= before);
        assert forall|x: Position| before.contains(x) implies visited@.contains(x) by {
            let k = choose|k: int| 0 <= k < before.len() && before[k] == x;
            assert(visited@[k] == x);
        }
    } else {
        assert(visited@.subrange(0, before.len() as int) =~= before);
    }
}

/// `extends_around` composes.
proof fn lemma_extends_trans(
    occupied: Set<Position>,
    a: Seq<Position>,
    b: Seq<Position>,
    c: Seq<Position>,
    p: Position,
)
    requires
        extends_around(occupied, a, b, p),
        extends_around(occupied, b, c, p),
    ensures
        extends_around(occupied, a, c, p),
        forall|x: Position| b.contains(x) ==> c.contains(x),
{
    assert(c.subrange(0, a.len() as int) =~= a) by {
        assert forall|j: int| 0 <= j < a.len() implies c[j] == a[j] by {
            assert(c.subrange(0, b.len() as int)[j] == c[j]);
            assert(b.subrange(0, a.len() as int)[j] == b[j]);
        }
    }
    assert forall|j: int| a.len() <= j < c.len() implies occupied.contains(#[trigger] c[j])
        && adjacent(p, c[j]) by {
        if j < b.len() {
            assert(c.subrange(0, b.len() as int)[j] == c[j]);
        }
    }
    assert forall|x: Position| b.contains(x) implies c.contains(x) by {
        let k = choose|k: int| 0 <= k < b.len() && b[k] == x;
        assert(c.subrange(0, b.len() as int)[k] == c[k]);
    }
}

/// Appends the occupied neighbors of `p` that `visited` does not yet hold.
fn visit_neighbors(ps: &Vec<Position>, visited: &mut Vec<Position>, p: Position)
    requires
        is_interior(p),
    ensures
        extends_around(ps@.to_set(), old(visited)@, final(visited)@, p),
        forall|x: Position| old(visited)@.contains(x) ==> final(visited)@.contains(x),
        forall|q: Position|
            ps@.to_set().contains(q) && adjacent(p, q) ==> final(visited)@.contains(q),
{
    let ghost occ = ps@.to_set();
    let ghost v0 = visited@;
    assert(visited@.subrange(0, v0.len() as int) =~= v0);
    let q0 = (p.0 + 1, p.1, p.2);
    visit(ps, visited, Ghost(p), q0);
    let ghost v1 = visited@;
    let q1 = (p.0 - 1, p.1, p.2);
    visit(ps, visited, Ghost(p), q1);
    let ghost v2 = visited@;
    proof {
        lemma_extends_trans(occ, v0, v1, v2, p);
    }
    let q2 = (p.0, p.1 + 1, p.2);
    visit(ps, visited, Ghost(p), q2);
    let ghost v3 = visited@;
    proof {
        lemma_extends_trans(occ, v0, v2, v3, p);
    }
    let q3 = (p.0, p.1 - 1, p.2);
    visit(ps, visited, Ghost(p), q3);
    let ghost v4 = visited@;
    proof {
        lemma_extends_trans(occ, v0, v3, v4, p);
    }
    let q4 = (p.0, p.1, p.2 + 1);
    visit(ps, visited, Ghost(p), q4);
    let ghost v5 = visited@;
    proof {
        lemma_extends_trans(occ, v0, v4, v5, p);
    }
    let q5 = (p.0, p.1, p.2 - 1);
    visit(ps, visited, Ghost(p), q5);
    proof {
        lemma_extends_trans(occ, v0, v5, visited@, p);
        assert forall|q: Position| occ.contains(q) && adjacent(p, q) implies visited@.contains(q) by {
            assert(ps@.contains(q));
        }
    }
}

/// The positions of `ps` reachable from `ground` through face-adjacent positions of `ps`:
/// a breadth-first search in which the visited list doubles as the queue.
pub(crate) fn grounded_component(ps: &Vec<Position>, ground: Vec<Position>) -> (visited: Vec<Position>)
    requires
        ps@.no_duplicates(),
        ground@.no_duplicates(),
        forall|q: Position| #[trigger] ground@.contains(q) <==> ps@.contains(q) && q.1 == 0,
        grounded_interior(ps@.to_set()),
    ensures
        visited@.no_duplicates(),
        forall|q: Position| #[trigger] visited@.contains(q) <==> grounded(ps@.to_set(), q),
{
    let ghost occ = ps@.to_set();
    let mut visited = ground;
    let mut head: usize = 0;
    proof {
        assert forall|i: int| 0 <= i < visited@.len() implies grounded(occ, #[trigger] visited@[i]) by {
            assert(visited@.contains(visited@[i]));
            lemma_ground_is_grounded(occ, visited@[i]);
        }
        assert(visited@.to_set().subset_of(occ));
        visited@.unique_seq_to_set();
        ps@.unique_seq_to_set();
        vstd::set_lib::lemma_len_subset(visited@.to_set(), occ);
    }
    while head < visited.len()
        invariant
            ps@.no_duplicates(),
            occ == ps@.to_set(),
            grounded_interior(occ),
            visited@.no_duplicates(),
            head <= visited@.len(),
            visited@.len() <= ps@.len(),
            forall|i: int| 0 <= i < visited@.len() ==> grounded(occ, #[trigger] visited@[i]),
            forall|q: Position| occ.contains(q) && q.1 == 0 ==> #[trigger] visited@.contains(q),
            forall|i: int, q: Position|
                #![trigger adjacent(visited@[i], q)]
                0 <= i < head && occ.contains(q) && adjacent(visited@[i], q) ==> visited@.contains(
                    q,
                ),
        decreases 2 * ps@.len() - head - visited@.len(),
    {
        let p = visited[head];
        let ghost before = visited@;
        assert(grounded(occ, p));
        visit_neighbors(ps, &mut visited, p);
        proof {
            assert forall|i: int| 0 <= i < visited@.len() implies grounded(
                occ,
                #[trigger] visited@[i],
            ) by {
                if i < before.len() {
                    assert(visited@.subrange(0, before.len() as int)[i] == visited@[i]);
                } else {
                    lemma_grounded_step(occ, p, visited@[i]);
                }
            }
            assert forall|i: int, q: Position|
                #![trigger adjacent(visited@[i], q)]
                0 <= i < head + 1 && occ.contains(q) && adjacent(visited@[i], q) implies visited@.contains(q) by {
                assert(visited@.subrange(0, before.len() as int)[i] == visited@[i]);
                assert(before[i] == visited@[i]);
                if i < head {
                    assert(adjacent(before[i], q));
                    assert(before.contains(q));
                }
            }
            assert(visited@.to_set().subset_of(occ)) by {
                assert forall|x: Position| visited@.to_set().contains(x) implies occ.contains(x) by {
                    let k = choose|k: int| 0 <= k < visited@.len() && visited@[k] == x;
                    assert(grounded(occ, visited@[k]));
                    lemma_grounded_is_occupied(occ, x);
                }
            }
            visited@.unique_seq_to_set();
            ps@.unique_seq_to_set();
            vstd::set_lib::lemma_len_subset(visited@.to_set(), occ);
        }
        head = head + 1;
    }
    proof {
        assert forall|q: Position| #[trigger] visited@.contains(q) <==> grounded(occ, q) by {
            if visited@.contains(q) {
                let k = choose|k: int| 0 <= k < visited@.len() && visited@[k] == q;
                assert(grounded(occ, visited@[k]));
            }
            if grounded(occ, q) {
                let reached = visited@.to_set();
                assert forall|a: Position, b: Position|
                    #![trigger reached.contains(a), adjacent(a, b)]
                    reached.contains(a) && occ.contains(b) && adjacent(a, b) implies reached.contains(
                        b,
                    ) by {
                    let k = choose|k: int| 0 <= k < visited@.len() && visited@[k] == a;
                    assert(adjacent(visited@[k], b));
                }
                lemma_closed_holds_grounded(occ, reached, q);
            }
        }
    }
    visited
}

} // verus!
