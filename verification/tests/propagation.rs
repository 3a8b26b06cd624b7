//! Tests for the candidate store and the constraint propagator: miss and
//! hit semantics, idempotence, shrink, and the contradictory hit-then-miss
//! input.

use shipgrid::candidates::{apply_move, covers_pos, init_candidates, process_hit, process_miss};
use shipgrid::catalog::ShipType;
use shipgrid::placement::num_positions;

const ALL_TYPES: [ShipType; 5] = [
    ShipType::Patrol,
    ShipType::Destroyer,
    ShipType::Submarine,
    ShipType::Battleship,
    ShipType::Carrier,
];

fn sorted(mut v: Vec<u8>) -> Vec<u8> {
    v.sort();
    v
}

#[test]
fn init_candidates_full() {
    let store = init_candidates();
    assert_eq!(store.len(), 5);
    for (i, &t) in ALL_TYPES.iter().enumerate() {
        let n = num_positions(t);
        assert_eq!(store[i].len(), n as usize);
        let expected: Vec<u8> = (0..n).collect();
        assert_eq!(store[i], expected);
    }
}

#[test]
fn covers_pos_examples() {
    // The center cell 12 is covered by exactly these Patrol placements.
    let covering: Vec<u8> = (0..num_positions(ShipType::Patrol))
        .filter(|&p| covers_pos(ShipType::Patrol, p, 12))
        .collect();
    assert_eq!(covering, vec![9, 10, 27, 32]);
}

#[test]
fn miss_semantics() {
    // A miss at cell 0 on a fresh store removes, for the Patrol, exactly
    // the horizontal and the vertical placement anchored at row 0 col 0.
    let mut store = init_candidates();
    apply_move(&mut store, (0, None));
    assert_eq!(store[0].len(), 38);
    assert!(!store[0].contains(&0));
    assert!(!store[0].contains(&20));
    for p in 0..num_positions(ShipType::Patrol) {
        if p != 0 && p != 20 {
            assert!(store[0].contains(&p));
        }
    }
    // Every other type loses exactly the placements that cover cell 0.
    for (i, &t) in ALL_TYPES.iter().enumerate() {
        for p in 0..num_positions(t) {
            assert_eq!(store[i].contains(&p), !covers_pos(t, p, 0));
        }
    }
}

#[test]
fn hit_semantics() {
    // A hit on the Patrol at cell 0 shrinks the Patrol set to exactly the
    // two placements covering cell 0 and leaves every other type alone.
    let mut store = init_candidates();
    let fresh = store.clone();
    apply_move(&mut store, (0, Some(ShipType::Patrol)));
    assert_eq!(sorted(store[0].clone()), vec![0, 20]);
    for i in 1..5 {
        assert_eq!(store[i], fresh[i]);
    }
}

#[test]
fn miss_is_idempotent() {
    let mut store = init_candidates();
    apply_move(&mut store, (7, None));
    let once = store.clone();
    apply_move(&mut store, (7, None));
    assert_eq!(store, once);
}

#[test]
fn hit_then_miss_empties_the_type() {
    // Contradictory input: a hit at a cell followed by a miss at the same
    // cell must not crash and leaves the hit type with no candidates.
    let mut store = init_candidates();
    apply_move(&mut store, (12, Some(ShipType::Destroyer)));
    apply_move(&mut store, (12, None));
    assert_eq!(store[1].len(), 0);
}

#[test]
fn candidate_sets_only_shrink() {
    let mut store = init_candidates();
    let moves: [(u8, Option<ShipType>); 5] = [
        (3, None),
        (12, Some(ShipType::Carrier)),
        (7, None),
        (12, None),
        (24, Some(ShipType::Patrol)),
    ];
    for &m in moves.iter() {
        let before = store.clone();
        apply_move(&mut store, m);
        for i in 0..5 {
            for &p in store[i].iter() {
                assert!(before[i].contains(&p));
            }
        }
    }
}

#[test]
fn process_hit_direct() {
    let mut plist: Vec<u8> = (0..num_positions(ShipType::Patrol)).collect();
    process_hit(&mut plist, ShipType::Patrol, 12);
    assert_eq!(sorted(plist), vec![9, 10, 27, 32]);
}

#[test]
fn process_miss_direct() {
    let mut store = init_candidates();
    process_miss(&mut store, 12);
    let patrol: Vec<u8> = (0..num_positions(ShipType::Patrol))
        .filter(|&p| !covers_pos(ShipType::Patrol, p, 12))
        .collect();
    assert_eq!(sorted(store[0].clone()), patrol);
    assert_eq!(store[0].len(), 36);
}
