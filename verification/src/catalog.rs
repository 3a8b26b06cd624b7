//! The fleet: ship types, their sizes, and their stable enumeration order.

use vstd::prelude::*;

verus! {

/// How many ship types the fleet has.
pub const NUM_SHIP_TYPES: usize = 5;

/// One ship type of the fixed fleet.
#[derive(Clone, Copy, Debug, PartialEq, Eq, Structural)]
pub enum ShipType {
    Patrol,
    Destroyer,
    Submarine,
    Battleship,
    Carrier,
}

/// The linear size (number of occupied cells) of a ship type.
pub open spec fn spec_ship_size(shiptype: ShipType) -> int {
    match shiptype {
        ShipType::Patrol => 2,
        ShipType::Destroyer => 3,
        ShipType::Submarine => 3,
        ShipType::Battleship => 4,
        ShipType::Carrier => 5,
    }
}

/// The index of a ship type in the fleet's stable enumeration order.
pub open spec fn spec_stype_id(stype: ShipType) -> int {
    match stype {
        ShipType::Patrol => 0,
        ShipType::Destroyer => 1,
        ShipType::Submarine => 2,
        ShipType::Battleship => 3,
        ShipType::Carrier => 4,
    }
}

/// The ship type at a given index of the enumeration order.
pub open spec fn spec_stype_of_id(id: int) -> ShipType {
    if id == 0 {
        ShipType::Patrol
    } else if id == 1 {
        ShipType::Destroyer
    } else if id == 2 {
        ShipType::Submarine
    } else if id == 3 {
        ShipType::Battleship
    } else {
        ShipType::Carrier
    }
}

/// Compute the size of the given ship type.
pub fn ship_size(shiptype: ShipType) -> (r: u8)
    ensures
        r == spec_ship_size(shiptype),
{
    match shiptype {
        ShipType::Patrol => 2,
        ShipType::Destroyer => 3,
        ShipType::Submarine => 3,
        ShipType::Battleship => 4,
        ShipType::Carrier => 5,
    }
}

/// Compute the ID (index in the fleet enumeration order) of the given ship type.
pub fn stype_id(stype: ShipType) -> (r: u8)
    ensures
        r == spec_stype_id(stype),
        r < NUM_SHIP_TYPES,
{
    match stype {
        ShipType::Patrol => 0,
        ShipType::Destroyer => 1,
        ShipType::Submarine => 2,
        ShipType::Battleship => 3,
        ShipType::Carrier => 4,
    }
}

/// Compute the ship type with the given ID, the inverse of `stype_id`.
pub fn stype_from_id(id: u8) -> (r: ShipType)
    requires
        id < NUM_SHIP_TYPES,
    ensures
        r == spec_stype_of_id(id as int),
        spec_stype_id(r) == id as int,
{
    if id == 0 {
        ShipType::Patrol
    } else if id == 1 {
        ShipType::Destroyer
    } else if id == 2 {
        ShipType::Submarine
    } else if id == 3 {
        ShipType::Battleship
    } else {
        ShipType::Carrier
    }
}

/// Whether a byte is one of the characters that describe a ship type.
pub open spec fn spec_is_shiptype_desc(desc: u8) -> bool {
    desc == 'P' as u8 || desc == 'D' as u8 || desc == 'S' as u8 || desc == 'B' as u8 || desc == 'C' as u8
}

/// The ship type described by a byte: `P`, `D`, `S`, `B` or `C`.
pub open spec fn spec_decode_shiptype(desc: u8) -> ShipType {
    if desc == 'P' as u8 {
        ShipType::Patrol
    } else if desc == 'D' as u8 {
        ShipType::Destroyer
    } else if desc == 'S' as u8 {
        ShipType::Submarine
    } else if desc == 'B' as u8 {
        ShipType::Battleship
    } else {
        ShipType::Carrier
    }
}

/// Decode a ship type from a character describing it.
pub fn decode_shiptype(desc: u8) -> (r: ShipType)
    requires
        spec_is_shiptype_desc(desc),
    ensures
        r == spec_decode_shiptype(desc),
{
    if desc == 'P' as u8 {
        ShipType::Patrol
    } else if desc == 'D' as u8 {
        ShipType::Destroyer
    } else if desc == 'S' as u8 {
        ShipType::Submarine
    } else if desc == 'B' as u8 {
        ShipType::Battleship
    } else {
        ShipType::Carrier
    }
}

} // verus!
