//! Tests for the placement enumeration: sizes, counts, the index-to-cells
//! bijection and the half-split of the index space.

use shipgrid::catalog::{decode_shiptype, ship_size, stype_from_id, stype_id, ShipType};
use shipgrid::placement::{num_positions, pos_from_parts, reduced_poscount, ship_range};

const ALL_TYPES: [ShipType; 5] = [
    ShipType::Patrol,
    ShipType::Destroyer,
    ShipType::Submarine,
    ShipType::Battleship,
    ShipType::Carrier,
];

#[test]
fn ship_sizes() {
    assert_eq!(ship_size(ShipType::Patrol), 2);
    assert_eq!(ship_size(ShipType::Destroyer), 3);
    assert_eq!(ship_size(ShipType::Submarine), 3);
    assert_eq!(ship_size(ShipType::Battleship), 4);
    assert_eq!(ship_size(ShipType::Carrier), 5);
}

#[test]
fn reduced_poscounts() {
    assert_eq!(reduced_poscount(ShipType::Patrol), 4);
    assert_eq!(reduced_poscount(ShipType::Destroyer), 3);
    assert_eq!(reduced_poscount(ShipType::Submarine), 3);
    assert_eq!(reduced_poscount(ShipType::Battleship), 2);
    assert_eq!(reduced_poscount(ShipType::Carrier), 1);
}

#[test]
fn num_positions_per_type() {
    assert_eq!(num_positions(ShipType::Patrol), 40);
    assert_eq!(num_positions(ShipType::Destroyer), 30);
    assert_eq!(num_positions(ShipType::Submarine), 30);
    assert_eq!(num_positions(ShipType::Battleship), 20);
    assert_eq!(num_positions(ShipType::Carrier), 10);
}

#[test]
fn stype_ids_roundtrip() {
    for (i, &t) in ALL_TYPES.iter().enumerate() {
        assert_eq!(stype_id(t), i as u8);
        assert_eq!(stype_from_id(i as u8), t);
    }
}

#[test]
fn decode_shiptype_all() {
    assert_eq!(decode_shiptype(b'P'), ShipType::Patrol);
    assert_eq!(decode_shiptype(b'D'), ShipType::Destroyer);
    assert_eq!(decode_shiptype(b'S'), ShipType::Submarine);
    assert_eq!(decode_shiptype(b'B'), ShipType::Battleship);
    assert_eq!(decode_shiptype(b'C'), ShipType::Carrier);
}

#[test]
fn pos_from_parts_row_major() {
    assert_eq!(pos_from_parts(0, 0), 0);
    assert_eq!(pos_from_parts(0, 4), 4);
    assert_eq!(pos_from_parts(1, 2), 7);
    assert_eq!(pos_from_parts(4, 4), 24);
}

#[test]
fn ship_range_horizontal_examples() {
    assert_eq!(ship_range(ShipType::Patrol, 0), vec![0, 1]);
    assert_eq!(ship_range(ShipType::Patrol, 7), vec![8, 9]);
    assert_eq!(ship_range(ShipType::Patrol, 19), vec![23, 24]);
    assert_eq!(ship_range(ShipType::Carrier, 0), vec![0, 1, 2, 3, 4]);
    assert_eq!(ship_range(ShipType::Carrier, 4), vec![20, 21, 22, 23, 24]);
    assert_eq!(ship_range(ShipType::Battleship, 3), vec![6, 7, 8, 9]);
}

#[test]
fn ship_range_vertical_examples() {
    assert_eq!(ship_range(ShipType::Patrol, 20), vec![0, 5]);
    assert_eq!(ship_range(ShipType::Patrol, 39), vec![19, 24]);
    assert_eq!(ship_range(ShipType::Carrier, 5), vec![0, 5, 10, 15, 20]);
    assert_eq!(ship_range(ShipType::Carrier, 9), vec![4, 9, 14, 19, 24]);
    assert_eq!(ship_range(ShipType::Destroyer, 22), vec![7, 12, 17]);
}

#[test]
fn occupied_cells_bijection() {
    for &t in ALL_TYPES.iter() {
        let n = num_positions(t);
        let size = ship_size(t) as usize;
        let mut seen: Vec<Vec<u8>> = Vec::new();
        for p in 0..n {
            let mut cells = ship_range(t, p);
            assert_eq!(cells.len(), size);
            for &c in cells.iter() {
                assert!(c < 25);
            }
            cells.sort();
            for w in cells.windows(2) {
                assert!(w[0] != w[1], "placement {p} repeats a cell");
            }
            assert!(
                !seen.contains(&cells),
                "two placements of {t:?} occupy the same cells"
            );
            seen.push(cells);
        }
        assert_eq!(seen.len(), n as usize);
    }
}

#[test]
fn half_split_invariant() {
    for &t in ALL_TYPES.iter() {
        let n = num_positions(t);
        let half = n / 2;
        for p in 0..n {
            let cells = ship_range(t, p);
            let rows: Vec<u8> = cells.iter().map(|c| c / 5).collect();
            let cols: Vec<u8> = cells.iter().map(|c| c % 5).collect();
            if p < half {
                assert!(rows.iter().all(|&r| r == rows[0]), "horizontal rows differ");
                for (k, &c) in cols.iter().enumerate() {
                    assert_eq!(c, cols[0] + k as u8);
                }
            } else {
                assert!(cols.iter().all(|&c| c == cols[0]), "vertical columns differ");
                for (k, &r) in rows.iter().enumerate() {
                    assert_eq!(r, rows[0] + k as u8);
                }
            }
        }
    }
}
