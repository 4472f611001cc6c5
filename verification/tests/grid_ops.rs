use boxroute::grid::{BoxMove, MatrixPosition, Storage};
use boxroute::model::BoxPosition;

fn pos(x: usize, y: usize, z: usize) -> BoxPosition {
    BoxPosition { x, y, z }
}

fn mv(box_id: usize, s: BoxPosition, d: BoxPosition) -> BoxMove {
    BoxMove { box_id, source_box_position: s, destination_box_position: d }
}

/// A fresh grid is empty everywhere.
#[test]
fn new_grid_is_empty() {
    let storage = Storage::new(3, 4, 5);
    assert!(!storage.is_occupied(pos(0, 0, 0)));
    assert!(!storage.is_blocked(pos(2, 3, 4)));
    assert_eq!(storage.get_box_id_at_box_position(pos(1, 2, 3)), None);
    assert_eq!(storage.get_box_position(1), None);
}

/// Applying a legal move clears the source, fills the destination and
/// updates the index; no two boxes ever share a cell.
#[test]
fn apply_moves_box() {
    let mut storage = Storage::new(3, 3, 1);
    storage.add_box_unchecked(7, pos(0, 0, 0));
    let m = mv(7, pos(0, 0, 0), pos(1, 0, 0));
    assert!(storage.is_valid_move(m));
    assert!(storage.move_box(m).is_ok());
    assert!(!storage.is_occupied(pos(0, 0, 0)));
    assert_eq!(storage.get_box_id_at_box_position(pos(1, 0, 0)), Some(7));
    assert_eq!(storage.get_box_position(7), Some(pos(1, 0, 0)));
}

/// A move into an occupied cell is rejected and changes nothing.
#[test]
fn apply_rejects_occupied_destination() {
    let mut storage = Storage::new(3, 1, 1);
    storage.add_box_unchecked(1, pos(0, 0, 0));
    storage.add_box_unchecked(2, pos(1, 0, 0));
    let m = mv(1, pos(0, 0, 0), pos(1, 0, 0));
    assert!(!storage.is_valid_move(m));
    assert!(storage.move_box(m).is_err());
    assert_eq!(storage.get_box_position(1), Some(pos(0, 0, 0)));
    assert_eq!(storage.get_box_id_at_box_position(pos(1, 0, 0)), Some(2));
}

/// A move into a cell without support below is rejected.
#[test]
fn apply_rejects_unsupported_destination() {
    let mut storage = Storage::new(2, 1, 2);
    storage.add_box_unchecked(1, pos(0, 0, 0));
    assert!(!storage.support_below(pos(1, 0, 1)));
    assert!(storage.move_box(mv(1, pos(0, 0, 0), pos(1, 0, 1))).is_err());
    // With a box below, the same destination gains support.
    storage.add_box_unchecked(2, pos(1, 0, 0));
    assert!(storage.support_below(pos(1, 0, 1)));
    assert!(storage.move_box(mv(1, pos(0, 0, 0), pos(1, 0, 1))).is_ok());
}

/// A box with another box resting on it cannot move out.
#[test]
fn apply_rejects_source_under_load() {
    let mut storage = Storage::new(2, 1, 2);
    storage.add_box_unchecked(1, pos(0, 0, 0));
    storage.add_box_unchecked(2, pos(0, 0, 1));
    assert!(storage.box_above(pos(0, 0, 0)));
    assert!(storage.move_box(mv(1, pos(0, 0, 0), pos(1, 0, 0))).is_err());
    // The stacked box itself may move down and away.
    assert!(!storage.box_above(pos(0, 0, 1)));
    assert!(storage.move_box(mv(2, pos(0, 0, 1), pos(1, 0, 0))).is_ok());
}

/// A reservation succeeds only on an empty cell, and a reserved cell rejects
/// moves into it.
#[test]
fn reserve_only_empty_cells() {
    let mut storage = Storage::new(3, 1, 1);
    storage.add_box_unchecked(1, pos(0, 0, 0));
    assert!(storage.block_box_position(pos(0, 0, 0)).is_err());
    assert!(storage.block_box_position(pos(1, 0, 0)).is_ok());
    assert!(storage.is_blocked(pos(1, 0, 0)));
    // Blocked twice: the second reservation fails, the cell stays reserved.
    assert!(storage.block_box_position(pos(1, 0, 0)).is_err());
    assert!(storage.move_box(mv(1, pos(0, 0, 0), pos(1, 0, 0))).is_err());
    assert_eq!(storage.get_box_position(1), Some(pos(0, 0, 0)));
}

/// The checked insert accepts exactly a fresh box on an empty in-bounds
/// cell, and ignores everything else.
#[test]
fn try_add_box_filters_bad_entries() {
    let mut storage = Storage::new(2, 2, 1);
    assert!(storage.try_add_box(1, pos(0, 0, 0)).is_ok());
    // Out of range on each axis.
    assert!(storage.try_add_box(2, pos(2, 0, 0)).is_err());
    assert!(storage.try_add_box(2, pos(0, 2, 0)).is_err());
    assert!(storage.try_add_box(2, pos(0, 0, 1)).is_err());
    // Occupied cell, then duplicate identifier.
    assert!(storage.try_add_box(2, pos(0, 0, 0)).is_err());
    assert!(storage.try_add_box(1, pos(1, 1, 0)).is_err());
    // A fresh box on a free cell still goes in.
    assert!(storage.try_add_box(2, pos(1, 0, 0)).is_ok());
    assert_eq!(storage.get_box_position(2), Some(pos(1, 0, 0)));
    assert_eq!(storage.get_box_position(1), Some(pos(0, 0, 0)));
}

/// The bounds test is inclusive on the x axis and exclusive on y and z, the
/// planner's historic behaviour.
#[test]
fn within_bounds_x_inclusive() {
    let storage = Storage::new(2, 2, 2);
    assert!(storage.within_bounds(pos(2, 0, 0)));
    assert!(!storage.within_bounds(pos(3, 0, 0)));
    assert!(!storage.within_bounds(pos(0, 2, 0)));
    assert!(!storage.within_bounds(pos(0, 0, 2)));
    assert!(storage.within_bounds(pos(1, 1, 1)));
}

/// Lateral neighbours come in the fixed order east, west, north, south, and
/// cells outside the grid are left out.
#[test]
fn adjacent_positions_order_and_bounds() {
    let storage = Storage::new(3, 3, 1);
    let mid = storage.adjacent_box_positions(pos(1, 1, 0));
    assert_eq!(mid, vec![pos(2, 1, 0), pos(0, 1, 0), pos(1, 2, 0), pos(1, 0, 0)]);
    let corner = storage.adjacent_box_positions(pos(0, 0, 0));
    assert_eq!(corner, vec![pos(1, 0, 0), pos(0, 1, 0)]);
    let far = storage.adjacent_box_positions(pos(2, 2, 0));
    assert_eq!(far, vec![pos(1, 2, 0), pos(2, 1, 0)]);
}

/// Cell state queries mirror the cell's tag.
#[test]
fn cell_state_queries() {
    let c = MatrixPosition::Occupied(4);
    assert!(c.is_occupied());
    assert!(!c.is_blocked());
    assert_eq!(c.box_id(), Some(4));
    let e = MatrixPosition::NotOccupied;
    assert!(!e.is_occupied());
    assert_eq!(e.box_id(), None);
    let b = MatrixPosition::Blocked;
    assert!(b.is_blocked());
    assert!(!b.is_occupied());
    assert_eq!(b.box_id(), None);
}

/// The clone is independent: moves on it never reach the source grid.
#[test]
fn clone_is_independent() {
    let mut storage = Storage::new(2, 2, 1);
    storage.add_box_unchecked(1, pos(0, 0, 0));
    let mut copy = storage.clone();
    assert!(copy.move_box(mv(1, pos(0, 0, 0), pos(1, 0, 0))).is_ok());
    assert_eq!(copy.get_box_position(1), Some(pos(1, 0, 0)));
    assert_eq!(storage.get_box_position(1), Some(pos(0, 0, 0)));
    assert!(storage.is_occupied(pos(0, 0, 0)));
}
