//! Tests for the overlap computation and the precomputed overlap cache.

use shipgrid::catalog::ShipType;
use shipgrid::overlap::{calc_has_overlap, gen_overlap_cache, has_overlap};
use shipgrid::placement::num_positions;

const ALL_TYPES: [ShipType; 5] = [
    ShipType::Patrol,
    ShipType::Destroyer,
    ShipType::Submarine,
    ShipType::Battleship,
    ShipType::Carrier,
];

#[test]
fn overlap_examples() {
    // A placement always overlaps itself.
    assert!(calc_has_overlap(ShipType::Patrol, 0, ShipType::Patrol, 0));
    // [0, 1] and [1, 2] share cell 1; [0, 1] and [2, 3] share nothing.
    assert!(calc_has_overlap(ShipType::Patrol, 0, ShipType::Patrol, 1));
    assert!(!calc_has_overlap(ShipType::Patrol, 0, ShipType::Patrol, 2));
    // Horizontal [0, 1] crosses vertical [0, 5].
    assert!(calc_has_overlap(ShipType::Patrol, 0, ShipType::Patrol, 20));
    // The top-row Carrier crosses every vertical Patrol anchored in row 0.
    for q in 0..5 {
        assert!(calc_has_overlap(ShipType::Carrier, 0, ShipType::Patrol, 20 + q));
    }
    // The column-0 vertical Carrier misses the Patrol at [2, 3].
    assert!(!calc_has_overlap(ShipType::Carrier, 5, ShipType::Patrol, 2));
}

#[test]
fn overlap_symmetry_same_type() {
    for &t in ALL_TYPES.iter() {
        let n = num_positions(t);
        for p1 in 0..n {
            for p2 in 0..n {
                assert_eq!(
                    calc_has_overlap(t, p1, t, p2),
                    calc_has_overlap(t, p2, t, p1),
                );
            }
        }
    }
}

#[test]
fn cache_matches_direct_computation() {
    let cache = gen_overlap_cache();
    for &t1 in ALL_TYPES.iter() {
        for &t2 in ALL_TYPES.iter() {
            for p1 in 0..num_positions(t1) {
                for p2 in 0..num_positions(t2) {
                    assert_eq!(
                        has_overlap(t1, p1, t2, p2, &cache),
                        calc_has_overlap(t1, p1, t2, p2),
                    );
                }
            }
        }
    }
}
