//! Placement enumeration: the index space of all placements of a ship type
//! on the board, and the bijection from an index to the occupied cells.
//!
//! The index space of a ship type is split in halves: the lower half
//! enumerates horizontal placements (anchor row by reduced column count),
//! the upper half vertical placements (reduced row count by anchor column).

use vstd::prelude::*;
use crate::catalog::{ShipType, spec_ship_size, ship_size};
use vstd::arithmetic::div_mod::{
    lemma_fundamental_div_mod,
    lemma_fundamental_div_mod_converse_div,
    lemma_fundamental_div_mod_converse_mod,
    lemma_mod_bound,
    lemma_multiply_divide_lt,
};

verus! {

/// Width and height of the square board.
pub const BOARD_SIZE: u8 = 5;

/// Number of cells on the board.
pub const BOARD_AREA: u8 = BOARD_SIZE * BOARD_SIZE;

/// A board position, numbered row-major: `pos = row * BOARD_SIZE + col`.
/// Values at or above `BOARD_AREA` are invalid.
pub type BoardPos = u8;

/// The row of a board position.
pub open spec fn spec_row(pos: int) -> int {
    pos / (BOARD_SIZE as int)
}

/// The column of a board position.
pub open spec fn spec_col(pos: int) -> int {
    pos % (BOARD_SIZE as int)
}

/// Construct a board position from its row and column parts.
pub fn pos_from_parts(row: u8, col: u8) -> (pos: BoardPos)
    requires
        row < BOARD_SIZE,
        col < BOARD_SIZE,
    ensures
        pos == row * BOARD_SIZE + col,
        pos < BOARD_AREA,
        spec_row(pos as int) == row,
        spec_col(pos as int) == col,
{
    proof {
        lemma_fundamental_div_mod_converse_div(
            row * BOARD_SIZE + col, BOARD_SIZE as int, row as int, col as int);
        lemma_fundamental_div_mod_converse_mod(
            row * BOARD_SIZE + col, BOARD_SIZE as int, row as int, col as int);
    }
    BOARD_SIZE * row + col
}

/// The number of columns a horizontal ship can anchor in, which equals the
/// number of rows a vertical ship can anchor in.
pub open spec fn spec_reduced_poscount(shiptype: ShipType) -> int {
    BOARD_SIZE - spec_ship_size(shiptype) + 1
}

/// The total number of placements of a ship type: the horizontal count
/// (`reduced count * board size`) doubled for the vertical mirror.
pub open spec fn spec_num_positions(shiptype: ShipType) -> int {
    2 * spec_reduced_poscount(shiptype) * BOARD_SIZE
}

/// The number of horizontal placements, which is half the index space.
pub open spec fn spec_half_positions(shiptype: ShipType) -> int {
    spec_reduced_poscount(shiptype) * BOARD_SIZE
}

/// Whether a placement index decodes as a horizontal placement.
pub open spec fn spec_is_horizontal(shiptype: ShipType, pos: int) -> bool {
    pos < spec_half_positions(shiptype)
}

/// The anchor (lowest-numbered occupied cell) of a placement.
pub open spec fn spec_anchor(shiptype: ShipType, pos: int) -> int {
    if spec_is_horizontal(shiptype, pos) {
        (pos / spec_reduced_poscount(shiptype)) * BOARD_SIZE
            + pos % spec_reduced_poscount(shiptype)
    } else {
        let q = pos - spec_half_positions(shiptype);
        (q / (BOARD_SIZE as int)) * BOARD_SIZE + q % (BOARD_SIZE as int)
    }
}

/// The distance between consecutive occupied cells of a placement:
/// one cell for a horizontal ship, one row for a vertical ship.
pub open spec fn spec_step(shiptype: ShipType, pos: int) -> int {
    if spec_is_horizontal(shiptype, pos) {
        1
    } else {
        BOARD_SIZE as int
    }
}

/// The `k`-th occupied cell of a placement.
pub open spec fn spec_cell(shiptype: ShipType, pos: int, k: int) -> int {
    spec_anchor(shiptype, pos) + k * spec_step(shiptype, pos)
}

/// The occupied cells of a placement, in order.
pub open spec fn spec_cells(shiptype: ShipType, pos: int) -> Seq<int> {
    Seq::new(spec_ship_size(shiptype) as nat, |k: int| spec_cell(shiptype, pos, k))
}

/// The occupied cells of a placement, as a set.
pub open spec fn spec_cell_set(shiptype: ShipType, pos: int) -> Set<int> {
    spec_cells(shiptype, pos).to_set()
}

/// Whether a placement covers a given board position.
pub open spec fn spec_covers(shiptype: ShipType, pos: int, cell: int) -> bool {
    exists|k: int|
        0 <= k < spec_ship_size(shiptype) && #[trigger] spec_cell(shiptype, pos, k) == cell
}

/// Covering a cell is the same as the cell lying in the placement's
/// occupied-cell set.
pub proof fn lemma_covers_iff_cell_set(shiptype: ShipType, pos: int, cell: int)
    ensures
        spec_covers(shiptype, pos, cell) <==> spec_cell_set(shiptype, pos).contains(cell),
{
    let cells = spec_cells(shiptype, pos);
    if spec_covers(shiptype, pos, cell) {
        let k = choose|k: int|
            0 <= k < spec_ship_size(shiptype)
            && #[trigger] spec_cell(shiptype, pos, k) == cell;
        assert(cells[k] == cell);
        assert(cells.contains(cell));
    }
    if spec_cell_set(shiptype, pos).contains(cell) {
        let k = choose|k: int| 0 <= k < cells.len() && cells[k] == cell;
        assert(spec_cell(shiptype, pos, k) == cell);
    }
}

/// Compute the number of anchor offsets along one axis for the given ship type.
pub fn reduced_poscount(shiptype: ShipType) -> (r: u8)
    ensures
        r == spec_reduced_poscount(shiptype),
        1 <= r <= BOARD_SIZE,
{
    BOARD_SIZE - ship_size(shiptype) + 1
}

/// Compute the number of valid placements for the given ship type.
pub fn num_positions(shiptype: ShipType) -> (r: u8)
    ensures
        r == spec_num_positions(shiptype),
        r == 2 * spec_half_positions(shiptype),
{
    2 * reduced_poscount(shiptype) * BOARD_SIZE
}

/// The geometric facts about one placement that every client needs: its
/// cells lie on the board, rise strictly with `k`, start at the anchor,
/// and all share a row (horizontal) or a column (vertical).
pub proof fn lemma_placement_geometry(shiptype: ShipType, pos: int)
    requires
        0 <= pos < spec_num_positions(shiptype),
    ensures
        0 <= spec_anchor(shiptype, pos),
        forall|k: int| 0 <= k < spec_ship_size(shiptype)
            ==> 0 <= #[trigger] spec_cell(shiptype, pos, k) < BOARD_AREA,
        forall|k1: int, k2: int|
            0 <= k1 < k2 < spec_ship_size(shiptype)
            ==> #[trigger] spec_cell(shiptype, pos, k1) < #[trigger] spec_cell(shiptype, pos, k2),
        spec_is_horizontal(shiptype, pos)
            ==> forall|k: int| 0 <= k < spec_ship_size(shiptype)
                ==> spec_row(#[trigger] spec_cell(shiptype, pos, k))
                    == spec_row(spec_anchor(shiptype, pos))
                && spec_col(spec_cell(shiptype, pos, k))
                    == spec_col(spec_anchor(shiptype, pos)) + k,
        !spec_is_horizontal(shiptype, pos)
            ==> forall|k: int| 0 <= k < spec_ship_size(shiptype)
                ==> spec_col(#[trigger] spec_cell(shiptype, pos, k))
                    == spec_col(spec_anchor(shiptype, pos))
                && spec_row(spec_cell(shiptype, pos, k))
                    == spec_row(spec_anchor(shiptype, pos)) + k,
{
    let b = BOARD_SIZE as int;
    let size = spec_ship_size(shiptype);
    let red = spec_reduced_poscount(shiptype);
    let half = spec_half_positions(shiptype);
    if spec_is_horizontal(shiptype, pos) {
        let row = pos / red;
        let col = pos % red;
        lemma_mod_bound(pos, red);
        lemma_multiply_divide_lt(pos, red, b);
        assert(0 <= row < b);
        assert(0 <= col < red);
        assert forall|k: int| 0 <= k < size implies
            spec_row(#[trigger] spec_cell(shiptype, pos, k)) == row
            && spec_col(spec_cell(shiptype, pos, k)) == col + k
            && 0 <= spec_cell(shiptype, pos, k) < BOARD_AREA by {
            let cell = spec_cell(shiptype, pos, k);
            assert(cell == row * b + (col + k));
            assert(0 <= col + k < b);
            lemma_fundamental_div_mod_converse_div(cell, b, row, col + k);
            lemma_fundamental_div_mod_converse_mod(cell, b, row, col + k);
        }
    } else {
        let q = pos - half;
        let row = q / b;
        let col = q % b;
        lemma_mod_bound(q, b);
        lemma_multiply_divide_lt(q, b, red);
        lemma_fundamental_div_mod(q, b);
        assert(0 <= row < red);
        assert(0 <= col < b);
        assert(spec_anchor(shiptype, pos) == row * b + col);
        assert forall|k: int| 0 <= k < size implies
            spec_row(#[trigger] spec_cell(shiptype, pos, k)) == row + k
            && spec_col(spec_cell(shiptype, pos, k)) == col
            && 0 <= spec_cell(shiptype, pos, k) < BOARD_AREA by {
            let cell = spec_cell(shiptype, pos, k);
            assert(cell == (row + k) * b + col) by (nonlinear_arith)
                requires cell == row * b + col + k * b,
            ;
            assert(row + k < b) by (nonlinear_arith)
                requires row < red, red + size == b + 1, k < size, b == 5,
            ;
            lemma_fundamental_div_mod_converse_div(cell, b, row + k, col);
            lemma_fundamental_div_mod_converse_mod(cell, b, row + k, col);
        }
    }
}

/// Compute the occupied cells for the given ship type and placement index.
pub fn ship_range(shiptype: ShipType, pos: u8) -> (r: Vec<u8>)
    requires
        pos < spec_num_positions(shiptype),
    ensures
        r@.len() == spec_ship_size(shiptype),
        forall|k: int| 0 <= k < r@.len() ==> r@[k] == spec_cell(shiptype, pos as int, k),
        forall|k: int| 0 <= k < r@.len() ==> r@[k] < BOARD_AREA,
{
    proof {
        lemma_placement_geometry(shiptype, pos as int);
    }
    let size = ship_size(shiptype);
    let reduced = reduced_poscount(shiptype);
    let half = num_positions(shiptype) / 2;

    // Starting square and step size for this ship's span.
    let start_square: u8;
    let step_size: u8;

    // Lower-numbered positions are horizontal, higher-numbered positions
    // are vertically oriented.
    if pos < half {
        proof {
            lemma_mod_bound(pos as int, reduced as int);
            lemma_multiply_divide_lt(pos as int, reduced as int, BOARD_SIZE as int);
        }
        start_square = pos_from_parts(pos / reduced, pos % reduced);
        step_size = 1;
    } else {
        let q = pos - half;
        proof {
            lemma_mod_bound(q as int, BOARD_SIZE as int);
            lemma_multiply_divide_lt(q as int, BOARD_SIZE as int, reduced as int);
        }
        start_square = pos_from_parts(q / BOARD_SIZE, q % BOARD_SIZE);
        step_size = BOARD_SIZE;
    }
    assert(start_square == spec_anchor(shiptype, pos as int));
    assert(step_size == spec_step(shiptype, pos as int));

    let mut r: Vec<u8> = Vec::new();
    let mut k: u8 = 0;
    while k < size
        invariant
            k <= size,
            size == spec_ship_size(shiptype),
            pos < spec_num_positions(shiptype),
            start_square == spec_anchor(shiptype, pos as int),
            step_size == spec_step(shiptype, pos as int),
            r@.len() == k,
            forall|j: int| 0 <= j < k ==> r@[j] == spec_cell(shiptype, pos as int, j),
            forall|j: int| 0 <= j < k ==> r@[j] < BOARD_AREA,
        decreases size - k,
    {
        proof {
            lemma_placement_geometry(shiptype, pos as int);
            assert(0 <= spec_cell(shiptype, pos as int, k as int) < BOARD_AREA);
        }
        r.push(start_square + step_size * k);
        k = k + 1;
    }
    r
}

/// The occupied cells of a placement form a set of exactly `size(type)`
/// distinct cells, all on the board.
pub proof fn lemma_occupied_cells_card(shiptype: ShipType, pos: int)
    requires
        0 <= pos < spec_num_positions(shiptype),
    ensures
        spec_cell_set(shiptype, pos).finite(),
        spec_cell_set(shiptype, pos).len() == spec_ship_size(shiptype),
        forall|c: int| spec_cell_set(shiptype, pos).contains(c) ==> 0 <= c < BOARD_AREA,
{
    lemma_placement_geometry(shiptype, pos);
    let cells = spec_cells(shiptype, pos);
    assert(cells.no_duplicates()) by {
        assert forall|k1: int, k2: int|
            0 <= k1 < cells.len() && 0 <= k2 < cells.len() && k1 != k2
            implies cells[k1] != cells[k2] by {
            if k1 < k2 {
                assert(spec_cell(shiptype, pos, k1) < spec_cell(shiptype, pos, k2));
            } else {
                assert(spec_cell(shiptype, pos, k2) < spec_cell(shiptype, pos, k1));
            }
        }
    }
    cells.unique_seq_to_set();
    assert forall|c: int| spec_cell_set(shiptype, pos).contains(c)
        implies 0 <= c < BOARD_AREA by {
        let k = choose|k: int| 0 <= k < cells.len() && cells[k] == c;
        assert(0 <= spec_cell(shiptype, pos, k) < BOARD_AREA);
    }
}

/// The anchor is the least cell of a placement, and every cell has the
/// form `anchor + k * step`.
proof fn lemma_anchor_is_min(shiptype: ShipType, pos: int)
    requires
        0 <= pos < spec_num_positions(shiptype),
    ensures
        spec_cell_set(shiptype, pos).contains(spec_anchor(shiptype, pos)),
        forall|c: int| spec_cell_set(shiptype, pos).contains(c)
            ==> spec_anchor(shiptype, pos) <= c,
{
    lemma_placement_geometry(shiptype, pos);
    let cells = spec_cells(shiptype, pos);
    assert(cells[0] == spec_cell(shiptype, pos, 0));
    assert(spec_cell(shiptype, pos, 0) == spec_anchor(shiptype, pos));
    assert(cells.contains(spec_anchor(shiptype, pos)));
    assert forall|c: int| spec_cell_set(shiptype, pos).contains(c)
        implies spec_anchor(shiptype, pos) <= c by {
        let k = choose|k: int| 0 <= k < cells.len() && cells[k] == c;
        if k > 0 {
            assert(spec_cell(shiptype, pos, 0) < spec_cell(shiptype, pos, k));
        }
    }
}

/// Decoding a placement index is injective: two distinct indices of the
/// same ship type never occupy the same set of cells.  Together with
/// `lemma_occupied_cells_card` this makes index-to-cells a bijection onto
/// `numPlacements(type)` distinct cell sets.
pub proof fn lemma_occupied_cells_injective(shiptype: ShipType, pos1: int, pos2: int)
    requires
        0 <= pos1 < spec_num_positions(shiptype),
        0 <= pos2 < spec_num_positions(shiptype),
        pos1 != pos2,
    ensures
        spec_cell_set(shiptype, pos1) != spec_cell_set(shiptype, pos2),
{
    let b = BOARD_SIZE as int;
    let size = spec_ship_size(shiptype);
    let red = spec_reduced_poscount(shiptype);
    let half = spec_half_positions(shiptype);
    let a1 = spec_anchor(shiptype, pos1);
    let a2 = spec_anchor(shiptype, pos2);
    lemma_placement_geometry(shiptype, pos1);
    lemma_placement_geometry(shiptype, pos2);
    if spec_cell_set(shiptype, pos1) == spec_cell_set(shiptype, pos2) {
        // Equal sets share their least element, so the anchors agree.
        lemma_anchor_is_min(shiptype, pos1);
        lemma_anchor_is_min(shiptype, pos2);
        assert(a1 == a2);
        // The anchors agree, so the orientations agree: a horizontal
        // placement covers `anchor + 1`, a vertical one cannot.
        if spec_is_horizontal(shiptype, pos1) != spec_is_horizontal(shiptype, pos2) {
            let (ph, pv) = if spec_is_horizontal(shiptype, pos1) {
                (pos1, pos2)
            } else {
                (pos2, pos1)
            };
            let cells_h = spec_cells(shiptype, ph);
            assert(cells_h[1] == spec_cell(shiptype, ph, 1));
            assert(spec_cell(shiptype, ph, 1) == a1 + 1);
            assert(spec_cell_set(shiptype, ph).contains(a1 + 1));
            assert(spec_cell_set(shiptype, pv).contains(a1 + 1));
            let k = choose|k: int|
                0 <= k < size && spec_cells(shiptype, pv)[k] == a1 + 1;
            assert(spec_cell(shiptype, pv, k) == a1 + k * b);
            assert(k * b == 1) by (nonlinear_arith)
                requires a1 + k * b == a1 + 1,
            ;
            assert(false) by (nonlinear_arith)
                requires k * b == 1, 0 <= k, b == 5,
            ;
        }
        // Same orientation and the same anchor pin the index down.
        if spec_is_horizontal(shiptype, pos1) {
            lemma_mod_bound(pos1, red);
            lemma_mod_bound(pos2, red);
            lemma_multiply_divide_lt(pos1, red, b);
            lemma_multiply_divide_lt(pos2, red, b);
            lemma_fundamental_div_mod(pos1, red);
            lemma_fundamental_div_mod(pos2, red);
            // The anchor splits as row * BOARD_SIZE + col with col < BOARD_SIZE,
            // so the row and column of both indices agree.
            lemma_fundamental_div_mod_converse_div(a1, b, pos1 / red, pos1 % red);
            lemma_fundamental_div_mod_converse_mod(a1, b, pos1 / red, pos1 % red);
            lemma_fundamental_div_mod_converse_div(a2, b, pos2 / red, pos2 % red);
            lemma_fundamental_div_mod_converse_mod(a2, b, pos2 / red, pos2 % red);
            assert(pos1 / red == pos2 / red);
            assert(pos1 % red == pos2 % red);
            assert(pos1 == red * (pos1 / red) + pos1 % red);
            assert(pos2 == red * (pos2 / red) + pos2 % red);
            assert(false);
        } else {
            let q1 = pos1 - half;
            let q2 = pos2 - half;
            lemma_mod_bound(q1, b);
            lemma_mod_bound(q2, b);
            lemma_fundamental_div_mod(q1, b);
            lemma_fundamental_div_mod(q2, b);
            assert(a1 == q1);
            assert(a2 == q2);
            assert(false);
        }
    }
}

/// The half-split invariant: indices in the lower half of the index space
/// decode as horizontal placements, whose cells all share one row and walk
/// consecutive columns; indices in the upper half decode as vertical
/// placements, whose cells all share one column and walk consecutive rows.
pub proof fn lemma_half_split(shiptype: ShipType, pos: int)
    requires
        0 <= pos < spec_num_positions(shiptype),
    ensures
        pos < spec_num_positions(shiptype) / 2 <==> spec_is_horizontal(shiptype, pos),
        pos < spec_num_positions(shiptype) / 2
            ==> forall|k: int| 0 <= k < spec_ship_size(shiptype)
                ==> spec_row(#[trigger] spec_cell(shiptype, pos, k))
                    == spec_row(spec_cell(shiptype, pos, 0))
                && spec_col(spec_cell(shiptype, pos, k))
                    == spec_col(spec_cell(shiptype, pos, 0)) + k,
        pos >= spec_num_positions(shiptype) / 2
            ==> forall|k: int| 0 <= k < spec_ship_size(shiptype)
                ==> spec_col(#[trigger] spec_cell(shiptype, pos, k))
                    == spec_col(spec_cell(shiptype, pos, 0))
                && spec_row(spec_cell(shiptype, pos, k))
                    == spec_row(spec_cell(shiptype, pos, 0)) + k,
{
    lemma_placement_geometry(shiptype, pos);
    assert(spec_cell(shiptype, pos, 0) == spec_anchor(shiptype, pos));
}

} // verus!
