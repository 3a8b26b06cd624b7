//! Pairwise overlap of placements: the direct cell-intersection test and
//! the precomputed table that caches it for every ordered pair of ship
//! types and every pair of placement indices.

use vstd::prelude::*;
use crate::catalog::{ShipType, spec_ship_size, spec_stype_of_id, spec_stype_id, stype_id,
    stype_from_id, NUM_SHIP_TYPES};
use crate::placement::{spec_num_positions, spec_cell, spec_covers, num_positions, ship_range};

verus! {

/// Whether two placements occupy at least one common board cell.
pub open spec fn spec_overlaps(t1: ShipType, p1: int, t2: ShipType, p2: int) -> bool {
    exists|c: int| #[trigger] spec_covers(t1, p1, c) && spec_covers(t2, p2, c)
}

/// Check whether the given ship placements overlap, by intersecting their
/// occupied-cell lists.
pub fn calc_has_overlap(ship1: ShipType, pos1: u8, ship2: ShipType, pos2: u8) -> (r: bool)
    requires
        pos1 < spec_num_positions(ship1),
        pos2 < spec_num_positions(ship2),
    ensures
        r == spec_overlaps(ship1, pos1 as int, ship2, pos2 as int),
{
    let range1 = ship_range(ship1, pos1);
    let range2 = ship_range(ship2, pos2);
    let mut i: usize = 0;
    while i < range1.len()
        invariant
            pos1 < spec_num_positions(ship1),
            pos2 < spec_num_positions(ship2),
            range1@.len() == spec_ship_size(ship1),
            range2@.len() == spec_ship_size(ship2),
            forall|k: int| 0 <= k < range1@.len()
                ==> range1@[k] == spec_cell(ship1, pos1 as int, k),
            forall|k: int| 0 <= k < range2@.len()
                ==> range2@[k] == spec_cell(ship2, pos2 as int, k),
            i <= range1@.len(),
            forall|k1: int, k2: int|
                0 <= k1 < i && 0 <= k2 < range2@.len()
                ==> #[trigger] range1@[k1] != #[trigger] range2@[k2],
        decreases range1@.len() - i,
    {
        let mut j: usize = 0;
        while j < range2.len()
            invariant
                pos1 < spec_num_positions(ship1),
                pos2 < spec_num_positions(ship2),
                range1@.len() == spec_ship_size(ship1),
                range2@.len() == spec_ship_size(ship2),
                forall|k: int| 0 <= k < range1@.len()
                    ==> range1@[k] == spec_cell(ship1, pos1 as int, k),
                forall|k: int| 0 <= k < range2@.len()
                    ==> range2@[k] == spec_cell(ship2, pos2 as int, k),
                i < range1@.len(),
                j <= range2@.len(),
                forall|k2: int| 0 <= k2 < j ==> range1@[i as int] != #[trigger] range2@[k2],
            decreases range2@.len() - j,
        {
            if range1[i] == range2[j] {
                proof {
                    let c = range1@[i as int] as int;
                    assert(spec_cell(ship1, pos1 as int, i as int) == c);
                    assert(spec_cell(ship2, pos2 as int, j as int) == c);
                    assert(spec_covers(ship1, pos1 as int, c));
                    assert(spec_covers(ship2, pos2 as int, c));
                }
                return true;
            }
            j = j + 1;
        }
        i = i + 1;
    }
    proof {
        if spec_overlaps(ship1, pos1 as int, ship2, pos2 as int) {
            let c = choose|c: int|
                #[trigger] spec_covers(ship1, pos1 as int, c)
                && spec_covers(ship2, pos2 as int, c);
            let k1 = choose|k: int|
                0 <= k < spec_ship_size(ship1)
                && #[trigger] spec_cell(ship1, pos1 as int, k) == c;
            let k2 = choose|k: int|
                0 <= k < spec_ship_size(ship2)
                && #[trigger] spec_cell(ship2, pos2 as int, k) == c;
            assert(range1@[k1] == range2@[k2]);
            assert(false);
        }
    }
    false
}

/// The precomputed overlap table: one boolean per ordered pair of ship
/// types and pair of placement indices.
pub struct OverlapTable {
    pub grid: Vec<Vec<Vec<Vec<bool>>>>,
}

impl OverlapTable {
    /// The table covers every ordered type pair and every index pair, and
    /// each entry records whether the two placements intersect.
    pub open spec fn wf(self) -> bool {
        &&& self.grid@.len() == NUM_SHIP_TYPES
        &&& forall|i: int| 0 <= i < NUM_SHIP_TYPES
            ==> #[trigger] self.grid@[i]@.len() == NUM_SHIP_TYPES
        &&& forall|i: int, j: int|
            0 <= i < NUM_SHIP_TYPES && 0 <= j < NUM_SHIP_TYPES
            ==> #[trigger] self.grid@[i]@[j]@.len() == spec_num_positions(spec_stype_of_id(i))
        &&& forall|i: int, j: int, p1: int|
            0 <= i < NUM_SHIP_TYPES && 0 <= j < NUM_SHIP_TYPES
                && 0 <= p1 < spec_num_positions(spec_stype_of_id(i))
            ==> #[trigger] self.grid@[i]@[j]@[p1]@.len()
                == spec_num_positions(spec_stype_of_id(j))
        &&& forall|i: int, j: int, p1: int, p2: int|
            0 <= i < NUM_SHIP_TYPES && 0 <= j < NUM_SHIP_TYPES
                && 0 <= p1 < spec_num_positions(spec_stype_of_id(i))
                && 0 <= p2 < spec_num_positions(spec_stype_of_id(j))
            ==> #[trigger] self.grid@[i]@[j]@[p1]@[p2]
                == spec_overlaps(spec_stype_of_id(i), p1, spec_stype_of_id(j), p2)
    }
}

/// Generate the overlap cache for every ordered pair of ship types.
pub fn gen_overlap_cache() -> (out: OverlapTable)
    ensures
        out.wf(),
{
    let mut grid: Vec<Vec<Vec<Vec<bool>>>> = Vec::new();
    let mut i: usize = 0;
    while i < NUM_SHIP_TYPES
        invariant
            i <= NUM_SHIP_TYPES,
            grid@.len() == i,
            forall|a: int| 0 <= a < i ==> #[trigger] grid@[a]@.len() == NUM_SHIP_TYPES,
            forall|a: int, b: int|
                0 <= a < i && 0 <= b < NUM_SHIP_TYPES
                ==> #[trigger] grid@[a]@[b]@.len() == spec_num_positions(spec_stype_of_id(a)),
            forall|a: int, b: int, p1: int|
                0 <= a < i && 0 <= b < NUM_SHIP_TYPES
                    && 0 <= p1 < spec_num_positions(spec_stype_of_id(a))
                ==> #[trigger] grid@[a]@[b]@[p1]@.len()
                    == spec_num_positions(spec_stype_of_id(b)),
            forall|a: int, b: int, p1: int, p2: int|
                0 <= a < i && 0 <= b < NUM_SHIP_TYPES
                    && 0 <= p1 < spec_num_positions(spec_stype_of_id(a))
                    && 0 <= p2 < spec_num_positions(spec_stype_of_id(b))
                ==> #[trigger] grid@[a]@[b]@[p1]@[p2]
                    == spec_overlaps(spec_stype_of_id(a), p1, spec_stype_of_id(b), p2),
        decreases NUM_SHIP_TYPES - i,
    {
        let stype1 = stype_from_id(i as u8);
        let n1 = num_positions(stype1);
        let mut row: Vec<Vec<Vec<bool>>> = Vec::new();
        let mut j: usize = 0;
        while j < NUM_SHIP_TYPES
            invariant
                i < NUM_SHIP_TYPES,
                j <= NUM_SHIP_TYPES,
                stype1 == spec_stype_of_id(i as int),
                n1 == spec_num_positions(stype1),
                row@.len() == j,
                forall|b: int| 0 <= b < j
                    ==> #[trigger] row@[b]@.len() == spec_num_positions(spec_stype_of_id(i as int)),
                forall|b: int, p1: int|
                    0 <= b < j && 0 <= p1 < spec_num_positions(spec_stype_of_id(i as int))
                    ==> #[trigger] row@[b]@[p1]@.len()
                        == spec_num_positions(spec_stype_of_id(b)),
                forall|b: int, p1: int, p2: int|
                    0 <= b < j && 0 <= p1 < spec_num_positions(spec_stype_of_id(i as int))
                        && 0 <= p2 < spec_num_positions(spec_stype_of_id(b))
                    ==> #[trigger] row@[b]@[p1]@[p2]
                        == spec_overlaps(spec_stype_of_id(i as int), p1,
                            spec_stype_of_id(b), p2),
            decreases NUM_SHIP_TYPES - j,
        {
            let stype2 = stype_from_id(j as u8);
            let n2 = num_positions(stype2);
            let mut table: Vec<Vec<bool>> = Vec::new();
            let mut pos1: u8 = 0;
            while pos1 < n1
                invariant
                    stype1 == spec_stype_of_id(i as int),
                    stype2 == spec_stype_of_id(j as int),
                    n1 == spec_num_positions(stype1),
                    n2 == spec_num_positions(stype2),
                    pos1 <= n1,
                    table@.len() == pos1,
                    forall|p1: int| 0 <= p1 < pos1
                        ==> #[trigger] table@[p1]@.len() == spec_num_positions(stype2),
                    forall|p1: int, p2: int|
                        0 <= p1 < pos1 && 0 <= p2 < spec_num_positions(stype2)
                        ==> #[trigger] table@[p1]@[p2]
                            == spec_overlaps(stype1, p1, stype2, p2),
                decreases n1 - pos1,
            {
                let mut line: Vec<bool> = Vec::new();
                let mut pos2: u8 = 0;
                while pos2 < n2
                    invariant
                        stype1 == spec_stype_of_id(i as int),
                        stype2 == spec_stype_of_id(j as int),
                        n1 == spec_num_positions(stype1),
                        n2 == spec_num_positions(stype2),
                        pos1 < n1,
                        pos2 <= n2,
                        line@.len() == pos2,
                        forall|p2: int| 0 <= p2 < pos2
                            ==> #[trigger] line@[p2]
                                == spec_overlaps(stype1, pos1 as int, stype2, p2),
                    decreases n2 - pos2,
                {
                    line.push(calc_has_overlap(stype1, pos1, stype2, pos2));
                    pos2 = pos2 + 1;
                }
                table.push(line);
                pos1 = pos1 + 1;
            }
            row.push(table);
            j = j + 1;
        }
        grid.push(row);
        i = i + 1;
    }
    OverlapTable { grid }
}

/// Fast overlap checker: look the answer up in the provided cache.
#[inline]
pub fn has_overlap(ship1: ShipType, pos1: u8, ship2: ShipType, pos2: u8, cache: &OverlapTable)
    -> (r: bool)
    requires
        cache.wf(),
        pos1 < spec_num_positions(ship1),
        pos2 < spec_num_positions(ship2),
    ensures
        r == spec_overlaps(ship1, pos1 as int, ship2, pos2 as int),
{
    proof {
        assert(spec_stype_of_id(spec_stype_id(ship1)) == ship1);
        assert(spec_stype_of_id(spec_stype_id(ship2)) == ship2);
    }
    cache.grid[stype_id(ship1) as usize][stype_id(ship2) as usize][pos1 as usize][pos2 as usize]
}

/// Overlap is symmetric between two placements of one ship type: a shared
/// cell is shared whichever placement is asked about first.
pub proof fn lemma_overlap_symmetric(t: ShipType, p1: int, p2: int)
    requires
        0 <= p1 < spec_num_positions(t),
        0 <= p2 < spec_num_positions(t),
    ensures
        spec_overlaps(t, p1, t, p2) == spec_overlaps(t, p2, t, p1),
{
    if spec_overlaps(t, p1, t, p2) {
        let c = choose|c: int| #[trigger] spec_covers(t, p1, c) && spec_covers(t, p2, c);
        assert(spec_covers(t, p2, c) && spec_covers(t, p1, c));
    }
    if spec_overlaps(t, p2, t, p1) {
        let c = choose|c: int| #[trigger] spec_covers(t, p2, c) && spec_covers(t, p1, c);
        assert(spec_covers(t, p1, c) && spec_covers(t, p2, c));
    }
}

} // verus!
