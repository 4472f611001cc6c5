//! The route resolver: turns the raw route of the search into an executable
//! plan. Non-impeded cells of the route are reserved on a private clone of
//! the grid, every impeded cell's occupant is displaced to the first lateral
//! neighbour that admits a legal move, and the displacement moves followed
//! by the route's own steps are decomposed into elementary moves.

use vstd::prelude::*;
use vstd::pervasive::unreached;
use itertools::Itertools;
use crate::grid::{occ, BoxMove, MatrixPosition, Storage};
use crate::model::{BoxId, BoxPosition};
use crate::search::{get_shortest_box_route_can_phase, impeded_count, route_ok, Label};

verus! {

/// Relies on itertools::Itertools::tuple_windows: yields each pair of
/// consecutive elements of the iterator, in order.
#[verifier::external_body]
fn route_pairs(box_id: BoxId, path: &Vec<(BoxPosition, Label)>) -> (r: Vec<BoxMove>)
    ensures
        path@.len() >= 1 ==> r@.len() == path@.len() - 1,
        path@.len() == 0 ==> r@.len() == 0,
        forall|i: int|
            0 <= i < r@.len() ==> r@[i] == (BoxMove {
                box_id: box_id,
                source_box_position: path@[i].0,
                destination_box_position: path@[i + 1].0,
            }),
{
    path.iter().tuple_windows().map(
        |pair: (&(BoxPosition, Label), &(BoxPosition, Label))| BoxMove {
            box_id,
            source_box_position: pair.0.0,
            destination_box_position: pair.1.0,
        },
    ).collect()
}

/// Find the first lateral neighbour of `base` that admits a legal move of
/// `base`'s occupant, and commit that displacement; `None`, with the grid
/// unchanged, when no neighbour admits one.
fn find_offset_move(storage2: &mut Storage, base: BoxPosition) -> (r: Option<BoxMove>)
    requires
        old(storage2).wf(),
        old(storage2).in_bounds(base),
        occ(old(storage2).cell(base)),
    ensures
        final(storage2).wf(),
        final(storage2).width == old(storage2).width,
        final(storage2).depth == old(storage2).depth,
        final(storage2).height == old(storage2).height,
        (match r {
            None => final(storage2).matrix@ == old(storage2).matrix@
                && final(storage2).box_positions@ == old(storage2).box_positions@,
            Some(mv) => {
                &&& mv.source_box_position == base
                &&& base.lateral_adjacent(mv.destination_box_position)
                &&& old(storage2).in_bounds(mv.destination_box_position)
                &&& old(storage2).cell(base) == MatrixPosition::Occupied(mv.box_id)
                &&& !occ(old(storage2).cell(mv.destination_box_position))
                &&& final(storage2).cell(base) == MatrixPosition::NotOccupied
                &&& final(storage2).cell(mv.destination_box_position)
                    == MatrixPosition::Occupied(mv.box_id)
                &&& (forall|q: BoxPosition|
                    old(storage2).in_bounds(q) && q != base && q
                        != mv.destination_box_position ==> #[trigger] final(storage2).cell(q)
                        == old(storage2).cell(q))
            },
        }),
{
    let occupant = match storage2.get_box_id_at_box_position(base) {
        Some(id) => id,
        None => unreached(),
    };
    let adjacents = storage2.adjacent_box_positions(base);
    let mut found: Option<BoxMove> = None;
    let mut ai: usize = 0;
    while ai < adjacents.len()
        invariant
            storage2.wf(),
            *storage2 == *old(storage2),
            storage2.in_bounds(base),
            storage2.cell(base) == MatrixPosition::Occupied(occupant),
            forall|t: int|
                0 <= t < adjacents@.len() ==> storage2.in_bounds(#[trigger] adjacents@[t])
                    && base.lateral_adjacent(adjacents@[t]),
            (match found {
                None => true,
                Some(mv) => mv.box_id == occupant && mv.source_box_position == base
                    && storage2.in_bounds(mv.destination_box_position) && base.lateral_adjacent(
                    mv.destination_box_position,
                ) && storage2.valid_move_spec(mv),
            }),
        decreases adjacents@.len() - ai,
    {
        if found.is_none() {
            let offset_box_move = BoxMove {
                box_id: occupant,
                source_box_position: base,
                destination_box_position: adjacents[ai],
            };
            if storage2.is_valid_move(offset_box_move) {
                found = Some(offset_box_move);
            }
        }
        ai = ai + 1;
    }
    match found {
        Some(mv) => {
            let moved = storage2.move_box(mv);
            match moved {
                Ok(_) => {},
                Err(_) => unreached(),
            }
            Some(mv)
        },
        None => None,
    }
}

/// Reserve every cell the route crosses without displacement, so that no
/// displacement is sent into a cell the plan depends on. Occupancy is not
/// touched: only empty cells gain reservations.
#[verifier::loop_isolation(false)]
fn reserve_route_cells(storage2: &mut Storage, route: &Vec<(BoxPosition, Label)>)
    requires
        old(storage2).wf(),
        forall|j: int| 0 <= j < route@.len() ==> old(storage2).in_bounds((#[trigger] route@[j]).0),
    ensures
        final(storage2).wf(),
        final(storage2).width == old(storage2).width,
        final(storage2).depth == old(storage2).depth,
        final(storage2).height == old(storage2).height,
        final(storage2).box_positions@ == old(storage2).box_positions@,
        forall|p: BoxPosition|
            old(storage2).in_bounds(p) && occ(old(storage2).cell(p))
                ==> #[trigger] final(storage2).cell(p) == old(storage2).cell(p),
        forall|p: BoxPosition|
            old(storage2).in_bounds(p) ==> (occ(#[trigger] final(storage2).cell(p)) <==> occ(
                old(storage2).cell(p),
            )),
{
    let mut bi: usize = 0;
    while bi < route.len()
        invariant
            storage2.wf(),
            storage2.width == old(storage2).width,
            storage2.depth == old(storage2).depth,
            storage2.height == old(storage2).height,
            storage2.box_positions@ == old(storage2).box_positions@,
            forall|p: BoxPosition|
                old(storage2).in_bounds(p) && occ(old(storage2).cell(p))
                    ==> #[trigger] storage2.cell(p) == old(storage2).cell(p),
            forall|p: BoxPosition|
                old(storage2).in_bounds(p) ==> (occ(#[trigger] storage2.cell(p)) <==> occ(
                    old(storage2).cell(p),
                )),
        decreases route@.len() - bi,
    {
        let pair = route[bi];
        if !pair.1.impeded_move {
            let _ = storage2.block_box_position(pair.0);
        }
        bi = bi + 1;
    }
}

/// The move takes the occupant of one of the route's impeded cells out of
/// that cell.
pub open spec fn displaces_route_cell(route: Seq<(BoxPosition, Label)>, m: BoxMove) -> bool {
    exists|j: int|
        0 < j < route.len() && (#[trigger] route[j]).1.impeded_move && m.source_box_position
            == route[j].0
}

/// The displacement pass: for every impeded step of the route, displace the
/// occupant of that cell; `None` when some occupant cannot be displaced.
#[verifier::loop_isolation(false)]
fn commit_offset_moves(storage2: &mut Storage, route: &Vec<(BoxPosition, Label)>) -> (r: Option<
    Vec<BoxMove>,
>)
    requires
        old(storage2).wf(),
        route@.len() >= 1,
        !route@[0].1.impeded_move,
        forall|j: int| 0 <= j < route@.len() ==> old(storage2).in_bounds((#[trigger] route@[j]).0),
        forall|i2: int, j2: int|
            0 <= i2 < j2 < route@.len() ==> (#[trigger] route@[i2]).0 != (#[trigger] route@[j2]).0,
        forall|j: int|
            0 <= j < route@.len() && (#[trigger] route@[j]).1.impeded_move ==> occ(
                old(storage2).cell(route@[j].0),
            ),
    ensures
        final(storage2).wf(),
        final(storage2).width == old(storage2).width,
        final(storage2).depth == old(storage2).depth,
        final(storage2).height == old(storage2).height,
        route@.len() == 1 ==> r is Some,
        (match r {
            None => true,
            Some(offsets) => {
                &&& (forall|t: int|
                    0 <= t < offsets@.len() ==> (
                    #[trigger] offsets@[t]).source_box_position.lateral_adjacent(
                        offsets@[t].destination_box_position,
                    ))
                &&& offsets@.len() == impeded_count(route@)
                &&& (forall|t: int|
                    0 <= t < offsets@.len() ==> displaces_route_cell(
                        route@,
                        #[trigger] offsets@[t],
                    ))
                &&& (route@.len() == 1 ==> offsets@.len() == 0)
            },
        }),
{
    let mut offset_moves: Vec<BoxMove> = Vec::new();
    let mut i: usize = 0;
    while i < route.len()
        invariant
            storage2.wf(),
            storage2.width == old(storage2).width,
            storage2.depth == old(storage2).depth,
            storage2.height == old(storage2).height,
            i <= route@.len(),
            forall|j: int|
                i <= j < route@.len() && (#[trigger] route@[j]).1.impeded_move ==> occ(
                    storage2.cell(route@[j].0),
                ),
            forall|t: int|
                0 <= t < offset_moves@.len() ==> (
                #[trigger] offset_moves@[t]).source_box_position.lateral_adjacent(
                    offset_moves@[t].destination_box_position,
                ),
            offset_moves@.len() == impeded_count(route@.take(i as int)),
            forall|t: int|
                0 <= t < offset_moves@.len() ==> displaces_route_cell(
                    route@,
                    #[trigger] offset_moves@[t],
                ),
            route@.len() == 1 ==> offset_moves@.len() == 0,
        decreases route@.len() - i,
    {
        let pair = route[i];
        proof {
            assert(route@.take(i + 1 as int).drop_last() =~= route@.take(i as int));
            assert(route@.take(i + 1 as int).last() == route@[i as int]);
        }
        if pair.1.impeded_move {
            let ghost pre = offset_moves@;
            match find_offset_move(storage2, pair.0) {
                Some(found_offset_box_move) => {
                    offset_moves.push(found_offset_box_move);
                    proof {
                        assert forall|j: int|
                            i + 1 <= j < route@.len() && (
                            #[trigger] route@[j]).1.impeded_move implies occ(
                            storage2.cell(route@[j].0),
                        ) by {
                            assert(route@[j].0 != route@[i as int].0);
                        }
                        assert(i > 0);
                        assert forall|t: int|
                            0 <= t < offset_moves@.len() implies displaces_route_cell(
                            route@,
                            #[trigger] offset_moves@[t],
                        ) by {
                            if t < pre.len() {
                                assert(offset_moves@[t] == pre[t]);
                                assert(displaces_route_cell(route@, pre[t]));
                            } else {
                                assert(offset_moves@[t] == found_offset_box_move);
                                assert((route@[i as int]).1.impeded_move
                                    && found_offset_box_move.source_box_position == route@[
                                    i as int].0);
                                assert(displaces_route_cell(route@, found_offset_box_move));
                            }
                        }
                    }
                },
                None => {
                    return None;
                },
            }
        }
        i = i + 1;
    }
    proof {
        assert(route@.take(route@.len() as int) =~= route@);
    }
    Some(offset_moves)
}

/// Decompose a sequence of lateral moves into elementary moves; a lateral
/// move is already elementary, so none is split and none is lost.
#[verifier::loop_isolation(false)]
fn simplify_all(moves: &Vec<BoxMove>) -> (r: Vec<BoxMove>)
    requires
        forall|t: int|
            0 <= t < moves@.len() ==> (#[trigger] moves@[t]).source_box_position.lateral_adjacent(
                moves@[t].destination_box_position,
            ),
    ensures
        r@ == moves@,
{
    let mut all_moves: Vec<BoxMove> = Vec::new();
    let mut mi: usize = 0;
    while mi < moves.len()
        invariant
            mi <= moves@.len(),
            all_moves@ == moves@.take(mi as int),
        decreases moves@.len() - mi,
    {
        let parts = moves[mi].simplify();
        proof {
            assert(parts@ =~= seq![moves@[mi as int]]);
        }
        let mut pi: usize = 0;
        while pi < parts.len()
            invariant
                mi < moves@.len(),
                pi <= parts@.len(),
                parts@ =~= seq![moves@[mi as int]],
                all_moves@ == moves@.take(mi as int) + parts@.take(pi as int),
            decreases parts@.len() - pi,
        {
            all_moves.push(parts[pi]);
            pi = pi + 1;
        }
        proof {
            assert(all_moves@ =~= moves@.take(mi + 1 as int));
        }
        mi = mi + 1;
    }
    proof {
        assert(all_moves@ =~= moves@);
    }
    all_moves
}

/// The plain consequences of a sound raw route that the resolver needs.
proof fn lemma_route_facts(
    s0: Storage,
    box_id: BoxId,
    target: BoxPosition,
    route: Seq<(BoxPosition, Label)>,
)
    requires
        route_ok(s0, box_id, target, route),
    ensures
        route.len() >= 1,
        !route[0].1.impeded_move,
        s0.box_positions@.contains_key(box_id),
        route[0].0 == s0.box_positions@[box_id],
        route[route.len() - 1].0 == target,
        forall|j: int| 0 <= j < route.len() ==> s0.in_bounds((#[trigger] route[j]).0),
        forall|i2: int, j2: int|
            0 <= i2 < j2 < route.len() ==> (#[trigger] route[i2]).0 != (#[trigger] route[j2]).0,
        forall|j: int|
            0 <= j < route.len() && (#[trigger] route[j]).1.impeded_move ==> occ(
                s0.cell(route[j].0),
            ),
        forall|j: int|
            0 < j < route.len() ==> (#[trigger] route[j - 1]).0.lateral_adjacent(route[j].0),
{
    assert forall|j: int|
        0 <= j < route.len() implies s0.in_bounds((#[trigger] route[j]).0) by {
        if j > 0 {
            assert(s0.in_bounds(route[j].0));
        }
    }
    assert forall|j: int|
        0 <= j < route.len() && (#[trigger] route[j]).1.impeded_move implies occ(
        s0.cell(route[j].0),
    ) by {
        assert(j > 0);
    }
    assert forall|j: int|
        0 < j < route.len() implies (#[trigger] route[j - 1]).0.lateral_adjacent(route[j].0) by {
        assert(route[(j - 1) as int].0.lateral_adjacent(route[j].0));
    }
}

/// Turn a raw route into the executable plan: reserve, displace, pair up,
/// and decompose into elementary moves. `None` when some blocking occupant
/// cannot be displaced.
fn resolve_route(storage2: &mut Storage, route: &Vec<(BoxPosition, Label)>, box_id: BoxId) -> (r:
    Option<Vec<BoxMove>>)
    requires
        old(storage2).wf(),
        route@.len() >= 1,
        !route@[0].1.impeded_move,
        forall|j: int| 0 <= j < route@.len() ==> old(storage2).in_bounds((#[trigger] route@[j]).0),
        forall|i2: int, j2: int|
            0 <= i2 < j2 < route@.len() ==> (#[trigger] route@[i2]).0 != (#[trigger] route@[j2]).0,
        forall|j: int|
            0 <= j < route@.len() && (#[trigger] route@[j]).1.impeded_move ==> occ(
                old(storage2).cell(route@[j].0),
            ),
        forall|j: int|
            0 < j < route@.len() ==> (#[trigger] route@[j - 1]).0.lateral_adjacent(route@[j].0),
    ensures
        route@.len() == 1 ==> r is Some,
        (match r {
            None => true,
            Some(moves) => {
                &&& (forall|t: int|
                    0 <= t < moves@.len() ==> (
                    #[trigger] moves@[t]).source_box_position.elementary_step(
                        moves@[t].destination_box_position,
                    ))
                &&& moves@.len() == impeded_count(route@) + route@.len() - 1
                &&& (forall|k: int|
                    impeded_count(route@) <= k < moves@.len() ==> (#[trigger] moves@[k]) == (
                    BoxMove {
                        box_id: box_id,
                        source_box_position: route@[k - impeded_count(route@)].0,
                        destination_box_position: route@[k - impeded_count(route@) + 1].0,
                    }))
                &&& (forall|t: int|
                    0 <= t < impeded_count(route@) ==> displaces_route_cell(
                        route@,
                        #[trigger] moves@[t],
                    ))
                &&& (moves@.len() == 0 <==> route@.len() == 1)
            },
        }),
{
    reserve_route_cells(storage2, route);
    proof {
        assert forall|j: int|
            0 <= j < route@.len() && (#[trigger] route@[j]).1.impeded_move implies occ(
            storage2.cell(route@[j].0),
        ) by {
            assert(occ(old(storage2).cell(route@[j].0)));
        }
    }
    let mut offset_moves = match commit_offset_moves(storage2, route) {
        Some(v) => v,
        None => {
            return None;
        },
    };
    let ghost offsets = offset_moves@;
    let mut route_moves = route_pairs(box_id, route);
    let ghost pairs = route_moves@;
    offset_moves.append(&mut route_moves);
    proof {
        assert(offset_moves@ == offsets + pairs);
        assert forall|t: int|
            0 <= t < offset_moves@.len() implies (
        #[trigger] offset_moves@[t]).source_box_position.lateral_adjacent(
            offset_moves@[t].destination_box_position,
        ) by {
            if t >= offsets.len() {
                let j = t - offsets.len() + 1;
                assert(route@[j - 1].0.lateral_adjacent(route@[j].0));
            }
        }
    }
    let all_moves = simplify_all(&offset_moves);
    proof {
        if route@.len() == 1 {
            assert(offsets.len() == 0);
            assert(pairs.len() == 0);
            assert(all_moves@.len() == 0);
        }
        if all_moves@.len() == 0 {
            assert(offset_moves@.len() == 0);
            assert(pairs.len() == 0);
            assert(route@.len() == 1);
        }
    }
    Some(all_moves)
}

/// The plan is witnessed by a sound raw route through the snapshot: some
/// displacement moves, one out of each impeded cell, followed by the box's
/// own moves along consecutive route cells from its cell to the target.
#[verifier::opaque]
pub open spec fn planned_from(
    storage: Storage,
    box_id: BoxId,
    target: BoxPosition,
    moves: Seq<BoxMove>,
) -> bool {
    exists|path: Seq<(BoxPosition, Label)>|
        {
            &&& #[trigger] route_ok(storage, box_id, target, path)
            &&& moves.len() == impeded_count(path) + path.len() - 1
            &&& (forall|k: int|
                impeded_count(path) <= k < moves.len() ==> (#[trigger] moves[k]) == (BoxMove {
                    box_id: box_id,
                    source_box_position: path[k - impeded_count(path)].0,
                    destination_box_position: path[k - impeded_count(path) + 1].0,
                }))
            &&& (forall|t: int|
                0 <= t < impeded_count(path) ==> displaces_route_cell(path, #[trigger] moves[t]))
        }
}

/// Package the resolver's output as a witnessed plan over the snapshot the
/// caller handed in.
#[verifier::rlimit(100)]
proof fn lemma_plan_witness(
    storage: Storage,
    box_id: BoxId,
    target: BoxPosition,
    route: Seq<(BoxPosition, Label)>,
    moves: Seq<BoxMove>,
)
    requires
        route_ok(storage, box_id, target, route),
        moves.len() == impeded_count(route) + route.len() - 1,
        forall|k: int|
            impeded_count(route) <= k < moves.len() ==> (#[trigger] moves[k]) == (BoxMove {
                box_id: box_id,
                source_box_position: route[k - impeded_count(route)].0,
                destination_box_position: route[k - impeded_count(route) + 1].0,
            }),
        forall|t: int|
            0 <= t < impeded_count(route) ==> displaces_route_cell(route, #[trigger] moves[t]),
    ensures
        planned_from(storage, box_id, target, moves),
{
    assert(moves.len() == impeded_count(route) + route.len() - 1);

    assert(forall|t: int|
        0 <= t < impeded_count(route) ==> displaces_route_cell(route, #[trigger] moves[t]));
    assert(planned_from(storage, box_id, target, moves)) by {
        reveal(planned_from);
    }
}

/// Plan the relocation of one box to its target. Returns the full ordered
/// sequence of elementary moves: displacement moves first, then the route's
/// own steps; `None` when the box is unknown, no route exists, or some
/// blocking occupant cannot be displaced. An empty plan means the box is
/// already at its target.
#[verifier::rlimit(100)]
#[verifier::spinoff_prover]
pub fn get_shortest_box_route(
    box_id: BoxId,
    target_box_position: BoxPosition,
    storage: &Storage,
) -> (r: Option<Vec<BoxMove>>)
    requires
        storage.wf(),
        storage.key_safe(),
    ensures
        !storage.box_positions@.contains_key(box_id) ==> r is None,
        storage.box_positions@.contains_key(box_id) && storage.box_positions@[box_id]
            == target_box_position ==> (r matches Some(moves) && moves@.len() == 0),
        (match r {
            Some(moves) => {
                &&& (forall|i: int|
                    0 <= i < moves@.len() ==> (
                    #[trigger] moves@[i]).source_box_position.elementary_step(
                        moves@[i].destination_box_position,
                    ))
                &&& (moves@.len() == 0 <==> storage.box_positions@.contains_key(box_id)
                    && storage.box_positions@[box_id] == target_box_position)
                &&& planned_from(*storage, box_id, target_box_position, moves@)
            },
            None => true,
        }),
{
    let mut storage2 = storage.clone();
    proof {
        crate::grid::lemma_view_equal_wf(*storage, storage2);
        assert(storage2.key_safe());
    }
    let ghost s0 = storage2;
    let route = match get_shortest_box_route_can_phase(box_id, target_box_position, storage) {
        Some(v) => v,
        None => {
            return None;
        },
    };
    proof {
        lemma_route_facts(*storage, box_id, target_box_position, route@);
        assert forall|j: int|
            0 <= j < route@.len() implies s0.in_bounds((#[trigger] route@[j]).0) && (
            route@[j].1.impeded_move ==> occ(s0.cell(route@[j].0))) by {
            assert(storage.in_bounds(route@[j].0));
            if route@[j].1.impeded_move {
                assert(occ(storage.cell(route@[j].0)));
            }
        }
    }
    let plan = match resolve_route(&mut storage2, &route, box_id) {
        Some(v) => v,
        None => {
            return None;
        },
    };
    proof {
        lemma_plan_witness(*storage, box_id, target_box_position, route@, plan@);
    }
    Some(plan)
}

} // verus!
