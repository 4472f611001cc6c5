//! The occupancy grid: a dense three-dimensional matrix of cells plus an
//! index from box identifiers to positions, with the move validator and the
//! planning-time reservation of cells.

use vstd::prelude::*;
use vstd::pervasive::VecAdditionalExecFns;
use std::collections::HashMap;
use crate::model::{BoxId, BoxPosition};

verus! {

/// The state of one grid cell: empty, occupied by a box, or reserved by a
/// plan for the rest of the planning cycle.
#[derive(Debug, Copy, Clone, PartialEq, Eq, Structural)]
pub enum MatrixPosition {
    Occupied(BoxId),
    NotOccupied,
    Blocked,
}

impl MatrixPosition {
    /// Whether a box stands in this cell.
    pub fn is_occupied(&self) -> (r: bool)
        ensures
            r == (self matches MatrixPosition::Occupied(_)),
    {
        match self {
            MatrixPosition::Occupied(_) => true,
            _ => false,
        }
    }

    /// Whether this cell carries a planning-time reservation.
    pub fn is_blocked(&self) -> (r: bool)
        ensures
            r == (self matches MatrixPosition::Blocked),
    {
        match self {
            MatrixPosition::Blocked => true,
            _ => false,
        }
    }

    /// The occupant, if any.
    pub fn box_id(&self) -> (r: Option<BoxId>)
        ensures
            r == (match self {
                MatrixPosition::Occupied(id) => Some(*id),
                _ => None::<BoxId>,
            }),
    {
        match self {
            MatrixPosition::Occupied(box_id) => Some(*box_id),
            _ => None,
        }
    }
}

/// A move of one box from a source cell to a destination cell.
#[derive(Debug, Copy, Clone, PartialEq, Eq, Structural)]
pub struct BoxMove {
    pub box_id: BoxId,
    pub source_box_position: BoxPosition,
    pub destination_box_position: BoxPosition,
}

/// The storage grid of one planning cycle.
pub struct Storage {
    pub width: usize,
    pub depth: usize,
    pub height: usize,
    pub box_positions: HashMap<BoxId, BoxPosition>,
    pub matrix: Vec<MatrixPosition>,
}

/// Whether a cell state carries a box.
pub open spec fn occ(c: MatrixPosition) -> bool {
    c matches MatrixPosition::Occupied(_)
}

impl Storage {
    /// The matrix holds one cell per coordinate of the cuboid.
    pub open spec fn dims_ok(self) -> bool {
        self.matrix@.len() == self.width * self.depth * self.height
    }

    /// Strictly inside the cuboid on every axis.
    pub open spec fn in_bounds(self, p: BoxPosition) -> bool {
        p.x < self.width && p.y < self.depth && p.z < self.height
    }

    /// Where a coordinate lives in the dense matrix.
    pub open spec fn flat_idx(self, p: BoxPosition) -> int {
        (p.x * self.depth + p.y) * self.height + p.z
    }

    /// The state of the cell at `p`.
    pub open spec fn cell(self, p: BoxPosition) -> MatrixPosition
        recommends
            self.dims_ok(),
            self.in_bounds(p),
    {
        self.matrix@[self.flat_idx(p)]
    }

    /// The matrix and the position index agree: a box identifier is in the
    /// index exactly when its cell holds that box, and nowhere else.
    pub open spec fn index_consistent(self) -> bool {
        &&& (forall|id: BoxId| self.box_positions@.contains_key(id) ==> {
            &&& self.in_bounds(#[trigger] self.box_positions@[id])
            &&& self.cell(self.box_positions@[id]) == MatrixPosition::Occupied(id)
        })
        &&& (forall|p: BoxPosition|
            self.in_bounds(p) ==> match #[trigger] self.cell(p) {
                MatrixPosition::Occupied(id) => self.box_positions@.contains_key(id)
                    && self.box_positions@[id] == p,
                _ => true,
            })
    }

    /// Well-formed grid state.
    pub open spec fn wf(self) -> bool {
        self.dims_ok() && self.index_consistent()
    }

    /// Every box rests on the floor or on another box.
    pub open spec fn support_ok(self) -> bool {
        forall|p: BoxPosition|
            self.in_bounds(p) && occ(#[trigger] self.cell(p)) && p.z > 0 ==> occ(
                self.cell(p.below()),
            )
    }

    /// The bounds test as the planner applies it; the x axis is accepted up
    /// to and including the width, an asymmetry kept deliberately.
    pub open spec fn within_bounds_spec(self, p: BoxPosition) -> bool {
        p.x <= self.width && p.y < self.depth && p.z < self.height
    }

    /// Destination has support: it is on the floor or the cell below it is
    /// occupied.
    pub open spec fn support_below_spec(self, p: BoxPosition) -> bool {
        p.z == 0 || self.cell(p.below()) matches MatrixPosition::Occupied(_)
    }

    /// A box rests directly on the cell at `p`.
    pub open spec fn box_above_spec(self, p: BoxPosition) -> bool {
        p.z + 1 < self.height && self.cell(p.above()) matches MatrixPosition::Occupied(_)
    }

    /// The move validator: the destination is free, in bounds and supported,
    /// and nothing rests on the source.
    pub open spec fn valid_move_spec(self, m: BoxMove) -> bool {
        &&& !(self.cell(m.destination_box_position) matches MatrixPosition::Occupied(_))
        &&& !(self.cell(m.destination_box_position) matches MatrixPosition::Blocked)
        &&& self.within_bounds_spec(m.destination_box_position)
        &&& self.support_below_spec(m.destination_box_position)
        &&& !self.box_above_spec(m.source_box_position)
    }

    pub proof fn lemma_flat_idx_in_range(self, p: BoxPosition)
        requires
            self.in_bounds(p),
        ensures
            0 <= self.flat_idx(p) < self.width * self.depth * self.height,
    {
        let w = self.width as int;
        let d = self.depth as int;
        let h = self.height as int;
        let x = p.x as int;
        let y = p.y as int;
        let z = p.z as int;
        assert(0 <= (x * d + y) * h + z < w * d * h) by (nonlinear_arith)
            requires
                0 <= x < w,
                0 <= y < d,
                0 <= z < h,
        {}
    }

    pub proof fn lemma_flat_idx_injective(self, p: BoxPosition, q: BoxPosition)
        requires
            self.in_bounds(p),
            self.in_bounds(q),
            self.flat_idx(p) == self.flat_idx(q),
        ensures
            p == q,
    {
        let d = self.depth as int;
        let h = self.height as int;
        assert(p.x == q.x && p.y == q.y && p.z == q.z) by (nonlinear_arith)
            requires
                0 <= p.x as int && 0 <= q.x as int,
                0 <= p.y as int && (p.y as int) < d && 0 <= q.y as int && (q.y as int) < d,
                0 <= p.z as int && (p.z as int) < h && 0 <= q.z as int && (q.z as int) < h,
                (p.x as int * d + p.y as int) * h + p.z as int == (q.x as int * d + q.y as int) * h
                    + q.z as int,
        {}
        assert(p == q);
    }

    /// Where the cell at `p` sits in the dense matrix.
    fn cell_index(&self, p: BoxPosition) -> (r: usize)
        requires
            self.dims_ok(),
            self.in_bounds(p),
        ensures
            r == self.flat_idx(p),
            r < self.matrix@.len(),
    {
        let n = self.matrix.len();
        proof {
            self.lemma_flat_idx_in_range(p);
            assert(p.x * self.depth + p.y <= self.flat_idx(p) && p.x * self.depth <= self.flat_idx(
                p,
            )) by (nonlinear_arith)
                requires
                    0 <= p.y as int,
                    0 <= p.z as int,
                    1 <= self.height as int,
                    0 <= p.x as int * self.depth as int,
            {}
        }
        (p.x * self.depth + p.y) * self.height + p.z
    }

    /// An empty grid of the given dimensions.
    pub fn new(width: usize, depth: usize, height: usize) -> (r: Storage)
        requires
            width * depth <= usize::MAX,
            width * depth * height <= usize::MAX,
        ensures
            r.width == width,
            r.depth == depth,
            r.height == height,
            r.wf(),
            r.support_ok(),
            r.box_positions@ == Map::<BoxId, BoxPosition>::empty(),
            forall|p: BoxPosition| r.in_bounds(p) ==> #[trigger] r.cell(p)
                == MatrixPosition::NotOccupied,
    {
        proof {
            assert(0 <= width as int * depth as int * height as int) by (nonlinear_arith)
                requires
                    0 <= width as int && 0 <= depth as int && 0 <= height as int,
            {}
        }
        let total: usize = (width * depth) * height;
        proof {
            assert(width as int * depth as int * height as int == (width as int * depth as int)
                * height as int) by (nonlinear_arith) {}
        }
        let mut matrix: Vec<MatrixPosition> = Vec::new();
        let mut i: usize = 0;
        while i < total
            invariant
                i <= total,
                matrix@.len() == i,
                forall|j: int| 0 <= j < i ==> matrix@[j] == MatrixPosition::NotOccupied,
            decreases total - i,
        {
            matrix.push(MatrixPosition::NotOccupied);
            i = i + 1;
        }
        let r = Storage { width, depth, height, box_positions: HashMap::new(), matrix };
        proof {
            assert forall|p: BoxPosition| r.in_bounds(p) implies #[trigger] r.cell(p)
                == MatrixPosition::NotOccupied by {
                r.lemma_flat_idx_in_range(p);
            }
        }
        r
    }

    /// Overwrite one cell, leaving every other cell as it was.
    fn set_cell(&mut self, p: BoxPosition, c: MatrixPosition)
        requires
            old(self).dims_ok(),
            old(self).in_bounds(p),
        ensures
            final(self).width == old(self).width,
            final(self).depth == old(self).depth,
            final(self).height == old(self).height,
            final(self).box_positions@ == old(self).box_positions@,
            final(self).dims_ok(),
            final(self).cell(p) == c,
            forall|q: BoxPosition|
                old(self).in_bounds(q) && q != p ==> #[trigger] final(self).cell(q) == old(
                    self,
                ).cell(q),
    {
        let i = self.cell_index(p);
        self.matrix.set(i, c);
        proof {
            assert forall|q: BoxPosition|
                old(self).in_bounds(q) && q != p implies #[trigger] self.cell(q) == old(self).cell(
                q,
            ) by {
                old(self).lemma_flat_idx_in_range(q);
                if old(self).flat_idx(q) == old(self).flat_idx(p) {
                    old(self).lemma_flat_idx_injective(q, p);
                }
            }
        }
    }

    /// Unconditional placement while building a snapshot; the caller
    /// guarantees a fresh box identifier and a free in-bounds cell.
    pub fn add_box_unchecked(&mut self, box_id: BoxId, box_position: BoxPosition)
        requires
            old(self).wf(),
            old(self).in_bounds(box_position),
            old(self).cell(box_position) == MatrixPosition::NotOccupied,
            !old(self).box_positions@.contains_key(box_id),
        ensures
            final(self).width == old(self).width,
            final(self).depth == old(self).depth,
            final(self).height == old(self).height,
            final(self).wf(),
            final(self).box_positions@ == old(self).box_positions@.insert(box_id, box_position),
            final(self).cell(box_position) == MatrixPosition::Occupied(box_id),
            forall|q: BoxPosition|
                old(self).in_bounds(q) && q != box_position ==> #[trigger] final(self).cell(q)
                    == old(self).cell(q),
    {
        self.box_positions.insert(box_id, box_position);
        self.set_cell(box_position, MatrixPosition::Occupied(box_id));
        proof {
            let newg = *self;
            let oldg = *old(self);
            assert forall|id: BoxId| newg.box_positions@.contains_key(id) implies {
                &&& newg.in_bounds(#[trigger] newg.box_positions@[id])
                &&& newg.cell(newg.box_positions@[id]) == MatrixPosition::Occupied(id)
            } by {
                if id != box_id {
                    assert(oldg.box_positions@.contains_key(id));
                    assert(oldg.cell(oldg.box_positions@[id]) == MatrixPosition::Occupied(id));
                    assert(oldg.box_positions@[id] != box_position);
                }
            }
            assert forall|p: BoxPosition| newg.in_bounds(p) implies match #[trigger] newg.cell(p) {
                MatrixPosition::Occupied(id) => newg.box_positions@.contains_key(id)
                    && newg.box_positions@[id] == p,
                _ => true,
            } by {
                if p != box_position {
                    assert(newg.cell(p) == oldg.cell(p));
                    match newg.cell(p) {
                        MatrixPosition::Occupied(id) => {
                            assert(oldg.box_positions@.contains_key(id));
                            assert(id != box_id);
                        },
                        _ => {},
                    }
                }
            }
        }
    }

    /// Checked placement while building a snapshot: rejects, leaving the
    /// grid unchanged, an out-of-bounds cell, a cell that is not empty, and
    /// a box identifier already placed.
    pub fn try_add_box(&mut self, box_id: BoxId, box_position: BoxPosition) -> (r: Result<
        (),
        (),
    >)
        requires
            old(self).wf(),
        ensures
            final(self).width == old(self).width,
            final(self).depth == old(self).depth,
            final(self).height == old(self).height,
            final(self).wf(),
            r matches Ok(_) <==> (old(self).in_bounds(box_position) && old(self).cell(
                box_position,
            ) == MatrixPosition::NotOccupied && !old(self).box_positions@.contains_key(box_id)),
            r matches Err(_) ==> final(self).box_positions@ == old(self).box_positions@
                && final(self).matrix@ == old(self).matrix@,
            r matches Ok(_) ==> final(self).box_positions@ == old(self).box_positions@.insert(
                box_id,
                box_position,
            ) && final(self).cell(box_position) == MatrixPosition::Occupied(box_id) && (forall|
                q: BoxPosition|
                old(self).in_bounds(q) && q != box_position ==> #[trigger] final(self).cell(q)
                    == old(self).cell(q)),
    {
        if !(box_position.x < self.width && box_position.y < self.depth && box_position.z
            < self.height) {
            return Err(());
        }
        let i = self.cell_index(box_position);
        let c = self.matrix[i];
        if c.is_occupied() {
            return Err(());
        }
        if c.is_blocked() {
            return Err(());
        }
        if self.get_box_position(box_id).is_some() {
            return Err(());
        }
        self.add_box_unchecked(box_id, box_position);
        Ok(())
    }

    /// Whether the planner treats `p` as inside the grid; kept faithful to
    /// the planner's historic check, which is inclusive on the x axis.
    pub fn within_bounds(&self, box_position: BoxPosition) -> (r: bool)
        ensures
            r == self.within_bounds_spec(box_position),
    {
        box_position.x <= self.width && box_position.y < self.depth && box_position.z
            < self.height
    }

    /// Whether a box stands at `box_position`.
    pub fn is_occupied(&self, box_position: BoxPosition) -> (r: bool)
        requires
            self.dims_ok(),
            self.in_bounds(box_position),
        ensures
            r == (self.cell(box_position) matches MatrixPosition::Occupied(_)),
    {
        let i = self.cell_index(box_position);
        self.matrix[i].is_occupied()
    }

    /// Whether the cell at `box_position` is reserved.
    pub fn is_blocked(&self, box_position: BoxPosition) -> (r: bool)
        requires
            self.dims_ok(),
            self.in_bounds(box_position),
        ensures
            r == (self.cell(box_position) matches MatrixPosition::Blocked),
    {
        let i = self.cell_index(box_position);
        self.matrix[i].is_blocked()
    }

    /// The occupant of the cell at `box_position`, if any.
    pub fn get_box_id_at_box_position(&self, box_position: BoxPosition) -> (r: Option<BoxId>)
        requires
            self.dims_ok(),
            self.in_bounds(box_position),
        ensures
            r == (match self.cell(box_position) {
                MatrixPosition::Occupied(id) => Some(id),
                _ => None::<BoxId>,
            }),
    {
        let i = self.cell_index(box_position);
        self.matrix[i].box_id()
    }

    /// Where the box with `box_id` currently stands, if it is known.
    pub fn get_box_position(&self, box_id: BoxId) -> (r: Option<BoxPosition>)
        ensures
            r == (if self.box_positions@.contains_key(box_id) {
                Some(self.box_positions@[box_id])
            } else {
                None::<BoxPosition>
            }),
    {
        match self.box_positions.get(&box_id) {
            Some(p) => Some(*p),
            None => None,
        }
    }

    /// The destination is on the floor or has a box directly below it.
    pub fn support_below(&self, box_position: BoxPosition) -> (r: bool)
        requires
            self.dims_ok(),
            self.in_bounds(box_position),
        ensures
            r == self.support_below_spec(box_position),
    {
        if box_position.z == 0 {
            true
        } else {
            self.is_occupied(
                BoxPosition { x: box_position.x, y: box_position.y, z: box_position.z - 1 },
            )
        }
    }

    /// A box rests directly on the cell at `box_position`.
    pub fn box_above(&self, box_position: BoxPosition) -> (r: bool)
        requires
            self.dims_ok(),
            self.in_bounds(box_position),
        ensures
            r == self.box_above_spec(box_position),
    {
        if box_position.z < self.height - 1 {
            self.is_occupied(
                BoxPosition { x: box_position.x, y: box_position.y, z: box_position.z + 1 },
            )
        } else {
            false
        }
    }

    /// The move validator of the planner, a pure probe that mutates nothing.
    pub fn is_valid_move(&self, box_move: BoxMove) -> (r: bool)
        requires
            self.dims_ok(),
            self.in_bounds(box_move.source_box_position),
            self.in_bounds(box_move.destination_box_position),
        ensures
            r == self.valid_move_spec(box_move),
    {
        if self.is_occupied(box_move.destination_box_position) {
            return false;
        }
        if self.is_blocked(box_move.destination_box_position) {
            return false;
        }
        if !self.within_bounds(box_move.destination_box_position) {
            return false;
        }
        if !self.support_below(box_move.destination_box_position) {
            return false;
        }
        if self.box_above(box_move.source_box_position) {
            return false;
        }
        true
    }

    /// Apply one move: validate it, and on success clear the source cell,
    /// occupy the destination and update the index, atomically. On failure
    /// the grid is unchanged. A well-formed grid stays well-formed, and a
    /// grid in which every box is supported stays so.
    #[verifier::rlimit(100)]
    #[verifier::spinoff_prover]
    pub fn move_box(&mut self, box_move: BoxMove) -> (r: Result<(), ()>)
        requires
            old(self).wf(),
            old(self).in_bounds(box_move.source_box_position),
            old(self).in_bounds(box_move.destination_box_position),
            old(self).box_positions@.contains_key(box_move.box_id),
            old(self).box_positions@[box_move.box_id] == box_move.source_box_position,
        ensures
            final(self).width == old(self).width,
            final(self).depth == old(self).depth,
            final(self).height == old(self).height,
            final(self).wf(),
            r matches Ok(_) <==> old(self).valid_move_spec(box_move),
            r matches Err(_) ==> final(self).box_positions@ == old(self).box_positions@
                && final(self).matrix@ == old(self).matrix@,
            r matches Ok(_) ==> {
                &&& final(self).box_positions@ == old(self).box_positions@.insert(
                    box_move.box_id,
                    box_move.destination_box_position,
                )
                &&& final(self).cell(box_move.source_box_position)
                    == MatrixPosition::NotOccupied
                &&& final(self).cell(box_move.destination_box_position)
                    == MatrixPosition::Occupied(box_move.box_id)
                &&& forall|q: BoxPosition|
                    old(self).in_bounds(q) && q != box_move.source_box_position && q
                        != box_move.destination_box_position ==> #[trigger] final(self).cell(q)
                        == old(self).cell(q)
            },
            old(self).support_ok() && box_move.destination_box_position
                != box_move.source_box_position.above() ==> final(self).support_ok(),
    {
        if !self.is_valid_move(box_move) {
            return Err(());
        }
        let src = box_move.source_box_position;
        let dst = box_move.destination_box_position;
        proof {
            assert(old(self).cell(src) == MatrixPosition::Occupied(box_move.box_id));
        }
        self.set_cell(src, MatrixPosition::NotOccupied);
        let ghost mid = *self;
        self.set_cell(dst, MatrixPosition::Occupied(box_move.box_id));
        let ghost mid2 = *self;
        self.box_positions.insert(box_move.box_id, dst);
        proof {
            let newg = *self;
            let oldg = *old(self);
            assert(src != dst);
            assert(newg.matrix@ == mid2.matrix@);
            assert forall|q: BoxPosition|
                oldg.in_bounds(q) && q != src && q != dst implies #[trigger] newg.cell(q)
                == oldg.cell(q) by {
                assert(mid2.cell(q) == mid.cell(q));
                assert(mid.cell(q) == oldg.cell(q));
            }
            assert(newg.cell(dst) == MatrixPosition::Occupied(box_move.box_id));
            assert(newg.cell(src) == MatrixPosition::NotOccupied) by {
                assert(mid.cell(src) == MatrixPosition::NotOccupied);
                assert(mid2.cell(src) == mid.cell(src));
            }
            assert forall|id: BoxId| newg.box_positions@.contains_key(id) implies {
                &&& newg.in_bounds(#[trigger] newg.box_positions@[id])
                &&& newg.cell(newg.box_positions@[id]) == MatrixPosition::Occupied(id)
            } by {
                if id != box_move.box_id {
                    assert(oldg.box_positions@[id] == newg.box_positions@[id]);
                    assert(oldg.cell(oldg.box_positions@[id]) == MatrixPosition::Occupied(id));
                    assert(oldg.box_positions@[id] != src);
                    assert(oldg.box_positions@[id] != dst);
                }
            }
            assert forall|p: BoxPosition| newg.in_bounds(p) implies match #[trigger] newg.cell(p) {
                MatrixPosition::Occupied(id) => newg.box_positions@.contains_key(id)
                    && newg.box_positions@[id] == p,
                _ => true,
            } by {
                if p != src && p != dst {
                    assert(oldg.cell(p) == newg.cell(p));
                    match newg.cell(p) {
                        MatrixPosition::Occupied(id) => {
                            if id == box_move.box_id {
                                assert(oldg.cell(oldg.box_positions@[id]) ==
                                    MatrixPosition::Occupied(id));
                                assert(oldg.box_positions@[id] == src);
                                assert(false);
                            }
                        },
                        _ => {},
                    }
                }
            }
            if oldg.support_ok() && dst != src.above() {
                assert forall|p: BoxPosition|
                    newg.in_bounds(p) && occ(#[trigger] newg.cell(p)) && p.z > 0 implies occ(
                    newg.cell(p.below()),
                ) by {
                    if p == dst {
                        assert(oldg.support_below_spec(dst));
                        assert(dst.below() != src) by {
                            if dst.below() == src {
                                assert(dst == src.above());
                            }
                        }
                    } else {
                        assert(p != src);
                        assert(oldg.cell(p) == newg.cell(p));
                        if p.below() == src {
                            assert(!oldg.box_above_spec(src));
                            assert(p == src.above());
                            assert(oldg.cell(p) matches MatrixPosition::Occupied(_));
                            assert(false);
                        } else if p.below() == dst {
                        } else {
                            assert(oldg.cell(p.below()) == newg.cell(p.below()));
                        }
                    }
                }
            }
        }
        Ok(())
    }

    /// Reserve a currently-empty cell for the rest of the planning cycle;
    /// fails, leaving the grid unchanged, on a cell that is not empty.
    pub fn block_box_position(&mut self, box_position: BoxPosition) -> (r: Result<(), ()>)
        requires
            old(self).wf(),
            old(self).in_bounds(box_position),
        ensures
            final(self).width == old(self).width,
            final(self).depth == old(self).depth,
            final(self).height == old(self).height,
            final(self).wf(),
            final(self).box_positions@ == old(self).box_positions@,
            r matches Ok(_) <==> old(self).cell(box_position) == MatrixPosition::NotOccupied,
            r matches Err(_) ==> final(self).matrix@ == old(self).matrix@,
            r matches Ok(_) ==> final(self).cell(box_position) == MatrixPosition::Blocked
                && (forall|q: BoxPosition|
                old(self).in_bounds(q) && q != box_position ==> #[trigger] final(self).cell(q)
                    == old(self).cell(q)),
            forall|q: BoxPosition|
                old(self).in_bounds(q) ==> ((#[trigger] final(self).cell(q)) matches
                    MatrixPosition::Occupied(_) <==> old(self).cell(q) matches
                    MatrixPosition::Occupied(_)),
            forall|q: BoxPosition|
                old(self).in_bounds(q) && occ(old(self).cell(q)) ==> #[trigger] final(self).cell(q)
                    == old(self).cell(q),
            old(self).support_ok() ==> final(self).support_ok(),
    {
        let i = self.cell_index(box_position);
        let c = self.matrix[i];
        if c.is_occupied() {
            return Err(());
        }
        if c.is_blocked() {
            return Err(());
        }
        self.set_cell(box_position, MatrixPosition::Blocked);
        proof {
            let newg = *self;
            let oldg = *old(self);
            assert forall|id: BoxId| newg.box_positions@.contains_key(id) implies {
                &&& newg.in_bounds(#[trigger] newg.box_positions@[id])
                &&& newg.cell(newg.box_positions@[id]) == MatrixPosition::Occupied(id)
            } by {
                assert(oldg.cell(oldg.box_positions@[id]) == MatrixPosition::Occupied(id));
                assert(oldg.box_positions@[id] != box_position);
            }
            if oldg.support_ok() {
                assert forall|p: BoxPosition|
                    newg.in_bounds(p) && occ(#[trigger] newg.cell(p)) && p.z > 0 implies occ(
                    newg.cell(p.below()),
                ) by {
                    assert(p != box_position);
                    assert(oldg.cell(p) == newg.cell(p));
                    if p.below() == box_position {
                        assert(oldg.cell(p.below()) == MatrixPosition::NotOccupied
                            || oldg.cell(p.below()) == MatrixPosition::Blocked);
                        assert(false);
                    }
                }
            }
        }
        Ok(())
    }

    /// The lateral in-bounds neighbours of `box_position`, in the fixed
    /// enumeration order east, west, north, south.
    pub fn adjacent_box_positions(&self, box_position: BoxPosition) -> (r: Vec<BoxPosition>)
        requires
            self.in_bounds(box_position),
        ensures
            r@ == self.adjacent_seq(box_position),
            forall|i: int|
                0 <= i < r@.len() ==> self.in_bounds(#[trigger] r@[i])
                    && box_position.lateral_adjacent(r@[i]),
    {
        let mut r: Vec<BoxPosition> = Vec::new();
        let p = box_position;
        if p.x + 1 < self.width {
            r.push(BoxPosition { x: p.x + 1, y: p.y, z: p.z });
        }
        if p.x >= 1 {
            r.push(BoxPosition { x: p.x - 1, y: p.y, z: p.z });
        }
        if p.y + 1 < self.depth {
            r.push(BoxPosition { x: p.x, y: p.y + 1, z: p.z });
        }
        if p.y >= 1 {
            r.push(BoxPosition { x: p.x, y: p.y - 1, z: p.z });
        }
        proof {
            assert(r@ =~= self.adjacent_seq(box_position));
        }
        r
    }

    /// Copy every cell of the matrix, in order.
    fn copy_matrix(&self) -> (r: Vec<MatrixPosition>)
        ensures
            r@ == self.matrix@,
    {
        let mut r: Vec<MatrixPosition> = Vec::new();
        let mut i: usize = 0;
        while i < self.matrix.len()
            invariant
                i <= self.matrix@.len(),
                r@.len() == i,
                forall|j: int| 0 <= j < i ==> r@[j] == self.matrix@[j],
            decreases self.matrix@.len() - i,
        {
            r.push(self.matrix[i]);
            i = i + 1;
        }
        proof {
            assert(r@ =~= self.matrix@);
        }
        r
    }

    /// The exact neighbour enumeration the planner uses.
    pub open spec fn adjacent_seq(self, p: BoxPosition) -> Seq<BoxPosition> {
        let east = BoxPosition { x: (p.x + 1) as usize, y: p.y, z: p.z };
        let west = BoxPosition { x: (p.x - 1) as usize, y: p.y, z: p.z };
        let north = BoxPosition { x: p.x, y: (p.y + 1) as usize, z: p.z };
        let south = BoxPosition { x: p.x, y: (p.y - 1) as usize, z: p.z };
        (if p.x + 1 < self.width {
            seq![east]
        } else {
            Seq::<BoxPosition>::empty()
        }) + (if p.x >= 1 {
            seq![west]
        } else {
            Seq::<BoxPosition>::empty()
        }) + (if p.y + 1 < self.depth {
            seq![north]
        } else {
            Seq::<BoxPosition>::empty()
        }) + (if p.y >= 1 {
            seq![south]
        } else {
            Seq::<BoxPosition>::empty()
        })
    }
}

/// Equal dimensions, index and matrix carry well-formedness across values.
pub proof fn lemma_view_equal_wf(a: Storage, b: Storage)
    requires
        a.wf(),
        b.width == a.width,
        b.depth == a.depth,
        b.height == a.height,
        b.box_positions@ == a.box_positions@,
        b.matrix@ == a.matrix@,
    ensures
        b.wf(),
{
    assert forall|id: BoxId| b.box_positions@.contains_key(id) implies {
        &&& b.in_bounds(#[trigger] b.box_positions@[id])
        &&& b.cell(b.box_positions@[id]) == MatrixPosition::Occupied(id)
    } by {
        assert(a.box_positions@.contains_key(id));
        assert(a.cell(a.box_positions@[id]) == MatrixPosition::Occupied(id));
        assert(b.cell(b.box_positions@[id]) == a.cell(a.box_positions@[id]));
    }
    assert forall|p: BoxPosition| b.in_bounds(p) implies match #[trigger] b.cell(p) {
        MatrixPosition::Occupied(id) => b.box_positions@.contains_key(id)
            && b.box_positions@[id] == p,
        _ => true,
    } by {
        assert(b.cell(p) == a.cell(p));
    }
}

impl Clone for Storage {
    /// An independent copy of the grid; planning works on a private clone of
    /// the cycle's snapshot.
    fn clone(&self) -> (r: Storage)
        ensures
            r.width == self.width,
            r.depth == self.depth,
            r.height == self.height,
            r.box_positions@ == self.box_positions@,
            r.matrix@ == self.matrix@,
    {
        Storage {
            width: self.width,
            depth: self.depth,
            height: self.height,
            box_positions: self.box_positions.clone(),
            matrix: self.copy_matrix(),
        }
    }
}

} // verus!
