//! The candidate store and the constraint propagator: one list of
//! still-possible placement indices per ship type, shrunk in place as
//! revealed moves (hits and misses) are applied in log order.

use vstd::prelude::*;
use crate::catalog::{ShipType, spec_ship_size, spec_stype_of_id, spec_stype_id, stype_id,
    stype_from_id, NUM_SHIP_TYPES};
use crate::placement::{BoardPos, BOARD_AREA, spec_num_positions, spec_cell, spec_covers,
    num_positions, ship_range};

verus! {

/// A candidate list is well formed for its ship type: no duplicate
/// entries, and every entry a valid placement index.
pub open spec fn candidate_wf(s: Seq<u8>, t: ShipType) -> bool {
    &&& s.no_duplicates()
    &&& forall|k: int| 0 <= k < s.len() ==> #[trigger] s[k] < spec_num_positions(t)
}

/// The candidate store is well formed: one list per ship type, each well
/// formed for the type at its index.
pub open spec fn store_wf(store: Seq<Vec<u8>>) -> bool {
    &&& store.len() == NUM_SHIP_TYPES
    &&& forall|i: int| 0 <= i < NUM_SHIP_TYPES
        ==> candidate_wf(#[trigger] store[i]@, spec_stype_of_id(i))
}

/// One hit step on one list: `after` holds exactly those placements of
/// `before` that cover the hit cell, and a list whose placements all
/// cover it already is left untouched.
pub open spec fn hit_step(before: Seq<u8>, after: Seq<u8>, t: ShipType, pos: u8) -> bool {
    &&& forall|x: u8|
        #![trigger after.contains(x)]
        #![trigger before.contains(x)]
        after.contains(x) <==> before.contains(x) && spec_covers(t, x as int, pos as int)
    &&& (forall|k: int| 0 <= k < before.len()
            ==> spec_covers(t, #[trigger] before[k] as int, pos as int)) ==> after == before
}

/// One miss step on one list: `after` holds exactly those placements of
/// `before` that avoid the missed cell, and a list whose placements all
/// avoid it already is left untouched.
pub open spec fn miss_step(before: Seq<u8>, after: Seq<u8>, t: ShipType, pos: u8) -> bool {
    &&& forall|x: u8|
        #![trigger after.contains(x)]
        #![trigger before.contains(x)]
        after.contains(x) <==> before.contains(x) && !spec_covers(t, x as int, pos as int)
    &&& (forall|k: int| 0 <= k < before.len()
            ==> !spec_covers(t, #[trigger] before[k] as int, pos as int)) ==> after == before
}

/// Check whether the given placement of a ship type covers a board cell.
pub fn covers_pos(stype: ShipType, p: u8, pos: u8) -> (r: bool)
    requires
        p < spec_num_positions(stype),
    ensures
        r == spec_covers(stype, p as int, pos as int),
{
    let cells = ship_range(stype, p);
    let mut k: usize = 0;
    while k < cells.len()
        invariant
            p < spec_num_positions(stype),
            cells@.len() == spec_ship_size(stype),
            forall|j: int| 0 <= j < cells@.len()
                ==> cells@[j] == spec_cell(stype, p as int, j),
            k <= cells@.len(),
            forall|j: int| 0 <= j < k ==> #[trigger] cells@[j] != pos,
        decreases cells@.len() - k,
    {
        if cells[k] == pos {
            proof {
                assert(spec_cell(stype, p as int, k as int) == pos);
            }
            return true;
        }
        k = k + 1;
    }
    proof {
        if spec_covers(stype, p as int, pos as int) {
            let j = choose|j: int|
                0 <= j < spec_ship_size(stype)
                && #[trigger] spec_cell(stype, p as int, j) == pos;
            assert(cells@[j] == pos);
            assert(false);
        }
    }
    false
}

/// Populate the store with every placement index of every ship type.
pub fn init_candidates() -> (store: Vec<Vec<u8>>)
    ensures
        store_wf(store@),
        forall|i: int| 0 <= i < NUM_SHIP_TYPES
            ==> #[trigger] store@[i]@.len() == spec_num_positions(spec_stype_of_id(i)),
        forall|i: int, k: int|
            0 <= i < NUM_SHIP_TYPES && 0 <= k < store@[i]@.len()
            ==> #[trigger] store@[i]@[k] == k,
        forall|i: int, p: u8| 0 <= i < NUM_SHIP_TYPES
            ==> (#[trigger] store@[i]@.contains(p)
                <==> p < spec_num_positions(spec_stype_of_id(i))),
{
    let mut store: Vec<Vec<u8>> = Vec::new();
    let mut i: usize = 0;
    while i < NUM_SHIP_TYPES
        invariant
            i <= NUM_SHIP_TYPES,
            store@.len() == i,
            forall|a: int| 0 <= a < i
                ==> #[trigger] store@[a]@.len() == spec_num_positions(spec_stype_of_id(a)),
            forall|a: int, k: int|
                0 <= a < i && 0 <= k < store@[a]@.len() ==> #[trigger] store@[a]@[k] == k,
        decreases NUM_SHIP_TYPES - i,
    {
        let n = num_positions(stype_from_id(i as u8));
        let mut list: Vec<u8> = Vec::new();
        let mut p: u8 = 0;
        while p < n
            invariant
                p <= n,
                list@.len() == p,
                forall|k: int| 0 <= k < p ==> #[trigger] list@[k] == k,
            decreases n - p,
        {
            list.push(p);
            p = p + 1;
        }
        store.push(list);
        i = i + 1;
    }
    proof {
        assert forall|i: int| 0 <= i < NUM_SHIP_TYPES
            implies candidate_wf(#[trigger] store@[i]@, spec_stype_of_id(i)) by {
            assert(forall|k: int| 0 <= k < store@[i]@.len() ==> #[trigger] store@[i]@[k] == k);
        }
        assert forall|i: int, p: u8| 0 <= i < NUM_SHIP_TYPES
            implies (#[trigger] store@[i]@.contains(p)
                <==> p < spec_num_positions(spec_stype_of_id(i))) by {
            if p < spec_num_positions(spec_stype_of_id(i)) {
                assert(store@[i]@[p as int] == p);
            }
            if store@[i]@.contains(p) {
                let k = choose|k: int| 0 <= k < store@[i]@.len() && store@[i]@[k] == p;
            }
        }
    }
    store
}

/// Remove from one list every placement that fails the hit/miss test:
/// when `keep_covering` is set, keep exactly the placements covering
/// `pos`; otherwise keep exactly those avoiding it.  Uses swap-removal,
/// so the surviving order is unspecified, but a scan never skips the
/// element moved into the vacated slot.
fn retain_by_coverage(poslist: &mut Vec<u8>, stype: ShipType, pos: BoardPos, keep_covering: bool)
    requires
        candidate_wf(old(poslist)@, stype),
    ensures
        candidate_wf(final(poslist)@, stype),
        keep_covering ==> hit_step(old(poslist)@, final(poslist)@, stype, pos),
        !keep_covering ==> miss_step(old(poslist)@, final(poslist)@, stype, pos),
        forall|x: u8| #[trigger] final(poslist)@.contains(x) ==> old(poslist)@.contains(x),
{
    let ghost keep = |x: u8| spec_covers(stype, x as int, pos as int) == keep_covering;
    let mut idx: usize = 0;
    while idx < poslist.len()
        invariant
            candidate_wf(old(poslist)@, stype),
            candidate_wf(poslist@, stype),
            idx <= poslist@.len(),
            keep == (|x: u8| spec_covers(stype, x as int, pos as int) == keep_covering),
            forall|k: int| 0 <= k < idx ==> keep(#[trigger] poslist@[k]),
            forall|x: u8| #[trigger] poslist@.contains(x) ==> old(poslist)@.contains(x),
            forall|x: u8| #[trigger] old(poslist)@.contains(x) && keep(x)
                ==> poslist@.contains(x),
            (forall|k: int| 0 <= k < old(poslist)@.len()
                ==> keep(#[trigger] old(poslist)@[k])) ==> poslist@ == old(poslist)@,
        decreases poslist@.len() - idx,
    {
        if covers_pos(stype, poslist[idx], pos) == keep_covering {
            idx = idx + 1;
        } else {
            let ghost prev = poslist@;
            poslist.swap_remove(idx);
            proof {
                let cur = poslist@;
                let last = prev.len() - 1;
                assert(cur == prev.update(idx as int, prev[last]).drop_last());
                assert(cur.no_duplicates()) by {
                    assert forall|a: int, b: int|
                        0 <= a < cur.len() && 0 <= b < cur.len() && a != b
                        implies cur[a] != cur[b] by {
                        let a2: int = if a == idx { last } else { a };
                        let b2: int = if b == idx { last } else { b };
                        assert(cur[a] == prev[a2] && cur[b] == prev[b2]);
                        assert(a2 != b2);
                    }
                }
                assert forall|x: u8| #[trigger] cur.contains(x)
                    implies prev.contains(x) by {
                    let k = choose|k: int| 0 <= k < cur.len() && cur[k] == x;
                }
                assert forall|x: u8| old(poslist)@.contains(x) && keep(x)
                    implies cur.contains(x) by {
                    assert(prev.contains(x));
                    let k = choose|k: int| 0 <= k < prev.len() && prev[k] == x;
                    assert(!keep(prev[idx as int]));
                    assert(k != idx);
                    if k == last {
                        assert(idx < last);
                        assert(cur[idx as int] == x);
                    } else {
                        assert(cur[k] == x);
                    }
                }
                if forall|k: int| 0 <= k < old(poslist)@.len()
                    ==> keep(#[trigger] old(poslist)@[k]) {
                    assert(prev == old(poslist)@);
                    assert(keep(old(poslist)@[idx as int]));
                    assert(false);
                }
            }
        }
    }
    proof {
        assert forall|x: u8| #[trigger] poslist@.contains(x)
            implies old(poslist)@.contains(x) && keep(x) by {
            let k = choose|k: int| 0 <= k < poslist@.len() && poslist@[k] == x;
        }
    }
}

/// Apply the effect of a miss on the position lists: every ship type
/// loses the placements that would cover the missed cell.
pub fn process_miss(pos_positions: &mut Vec<Vec<u8>>, pos: BoardPos)
    requires
        pos < BOARD_AREA,
        store_wf(old(pos_positions)@),
    ensures
        store_wf(final(pos_positions)@),
        forall|i: int| 0 <= i < NUM_SHIP_TYPES
            ==> miss_step(old(pos_positions)@[i]@, #[trigger] final(pos_positions)@[i]@,
                spec_stype_of_id(i), pos),
        forall|i: int, x: u8|
            0 <= i < NUM_SHIP_TYPES && #[trigger] final(pos_positions)@[i]@.contains(x)
            ==> old(pos_positions)@[i]@.contains(x),
{
    let mut stype_idx: usize = 0;
    while stype_idx < pos_positions.len()
        invariant
            pos < BOARD_AREA,
            store_wf(old(pos_positions)@),
            pos_positions@.len() == NUM_SHIP_TYPES,
            stype_idx <= NUM_SHIP_TYPES,
            forall|i: int| 0 <= i < stype_idx
                ==> candidate_wf(#[trigger] pos_positions@[i]@, spec_stype_of_id(i)),
            forall|i: int| 0 <= i < stype_idx
                ==> miss_step(old(pos_positions)@[i]@, #[trigger] pos_positions@[i]@,
                    spec_stype_of_id(i), pos),
            forall|i: int| stype_idx <= i < NUM_SHIP_TYPES
                ==> #[trigger] pos_positions@[i] == old(pos_positions)@[i],
        decreases pos_positions@.len() - stype_idx,
    {
        let stype = stype_from_id(stype_idx as u8);
        retain_by_coverage(&mut pos_positions[stype_idx], stype, pos, false);
        stype_idx = stype_idx + 1;
    }
    proof {
        assert forall|i: int, x: u8|
            0 <= i < NUM_SHIP_TYPES && #[trigger] final(pos_positions)@[i]@.contains(x)
            implies old(pos_positions)@[i]@.contains(x) by {
            assert(miss_step(old(pos_positions)@[i]@, final(pos_positions)@[i]@,
                spec_stype_of_id(i), pos));
        }
    }
}

/// Apply the effect of a hit on the given ship type: the type keeps only
/// the placements that cover the hit cell.
pub fn process_hit(poslist: &mut Vec<u8>, stype: ShipType, pos: BoardPos)
    requires
        pos < BOARD_AREA,
        candidate_wf(old(poslist)@, stype),
    ensures
        candidate_wf(final(poslist)@, stype),
        hit_step(old(poslist)@, final(poslist)@, stype, pos),
        forall|x: u8| #[trigger] final(poslist)@.contains(x) ==> old(poslist)@.contains(x),
{
    retain_by_coverage(poslist, stype, pos, true);
}

/// Apply the effect of a known move result on the list of possible
/// positions: a miss prunes every ship type, a hit prunes only the hit
/// type and leaves every other type's list untouched.
pub fn apply_move(pos_positions: &mut Vec<Vec<u8>>, move_val: (BoardPos, Option<ShipType>))
    requires
        move_val.0 < BOARD_AREA,
        store_wf(old(pos_positions)@),
    ensures
        store_wf(final(pos_positions)@),
        match move_val.1 {
            None => forall|i: int| 0 <= i < NUM_SHIP_TYPES
                ==> miss_step(old(pos_positions)@[i]@, #[trigger] final(pos_positions)@[i]@,
                    spec_stype_of_id(i), move_val.0),
            Some(stype) =>
                hit_step(old(pos_positions)@[spec_stype_id(stype)]@,
                    final(pos_positions)@[spec_stype_id(stype)]@, stype, move_val.0)
                && (forall|i: int| 0 <= i < NUM_SHIP_TYPES && i != spec_stype_id(stype)
                    ==> #[trigger] final(pos_positions)@[i] == old(pos_positions)@[i]),
        },
        forall|i: int, x: u8|
            0 <= i < NUM_SHIP_TYPES && #[trigger] final(pos_positions)@[i]@.contains(x)
            ==> old(pos_positions)@[i]@.contains(x),
{
    match move_val.1 {
        None => {
            // It was a miss: remove the position from all candidate lists.
            process_miss(pos_positions, move_val.0);
        },
        Some(stype) => {
            // It was a hit: the hit ship type must cover the hit position.
            let id = stype_id(stype) as usize;
            proof {
                assert(spec_stype_of_id(id as int) == stype);
            }
            process_hit(&mut pos_positions[id], stype, move_val.0);
        },
    }
}

/// Repeating a miss changes nothing: a second application of the same
/// miss leaves the candidate list exactly as the first left it.
pub proof fn lemma_miss_idempotent(s0: Seq<u8>, s1: Seq<u8>, s2: Seq<u8>, t: ShipType, pos: u8)
    requires
        miss_step(s0, s1, t, pos),
        miss_step(s1, s2, t, pos),
    ensures
        s2 == s1,
{
    assert forall|k: int| 0 <= k < s1.len()
        implies !spec_covers(t, #[trigger] s1[k] as int, pos as int) by {
        assert(s1.contains(s1[k]));
    }
}

/// A hit at a cell followed by a miss at the same cell is contradictory
/// input: it empties the ship type's candidate list, without any error.
pub proof fn lemma_hit_then_miss_empties(s0: Seq<u8>, s1: Seq<u8>, s2: Seq<u8>, t: ShipType,
    pos: u8)
    requires
        hit_step(s0, s1, t, pos),
        miss_step(s1, s2, t, pos),
    ensures
        s2.len() == 0,
{
    if s2.len() > 0 {
        assert(s2.contains(s2[0]));
        assert(s1.contains(s2[0]));
        assert(false);
    }
}

} // verus!
