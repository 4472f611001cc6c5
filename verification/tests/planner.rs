use boxroute::grid::Storage;
use boxroute::model::BoxPosition;
use boxroute::route::get_shortest_box_route;
use boxroute::search::get_shortest_box_route_can_phase;

fn pos(x: usize, y: usize, z: usize) -> BoxPosition {
    BoxPosition { x, y, z }
}

/// 2x2x1 grid, one box, free diagonal target: two non-impeded steps.
#[test]
fn scenario_free_diagonal() {
    let mut storage = Storage::new(2, 2, 1);
    storage.add_box_unchecked(1, pos(0, 0, 0));
    let plan = get_shortest_box_route(1, pos(1, 1, 0), &storage).expect("route must exist");
    assert_eq!(plan.len(), 2);
    for m in &plan {
        assert_eq!(m.box_id, 1);
    }
    assert_eq!(plan[0].source_box_position, pos(0, 0, 0));
    assert_eq!(plan[1].destination_box_position, pos(1, 1, 0));
    assert_eq!(plan[0].destination_box_position, plan[1].source_box_position);
    let route = get_shortest_box_route_can_phase(1, pos(1, 1, 0), &storage).unwrap();
    let last = route[route.len() - 1].1;
    assert_eq!(last.impeded_moves, 0);
    assert_eq!(last.non_impeded_moves, 2);
}

/// A box blocks the straight path but has empty space beside it: exactly one
/// displacement move comes first, and the route counts one impeded step.
#[test]
fn scenario_one_displacement() {
    let mut storage = Storage::new(3, 2, 1);
    storage.add_box_unchecked(1, pos(0, 0, 0));
    storage.add_box_unchecked(2, pos(1, 0, 0));
    // Close the free detour so the impeded route is the only one.
    storage.add_box_unchecked(3, pos(0, 1, 0));
    storage.add_box_unchecked(4, pos(2, 1, 0));
    let route = get_shortest_box_route_can_phase(1, pos(2, 0, 0), &storage).unwrap();
    let last = route[route.len() - 1].1;
    assert_eq!(last.impeded_moves, 1);
    let plan = get_shortest_box_route(1, pos(2, 0, 0), &storage).expect("route must exist");
    // One displacement of box 2, then the two steps of box 1.
    assert_eq!(plan.len(), 3);
    assert_eq!(plan[0].box_id, 2);
    assert_eq!(plan[0].source_box_position, pos(1, 0, 0));
    assert_eq!(plan[0].destination_box_position, pos(1, 1, 0));
    assert_eq!(plan[1].box_id, 1);
    assert_eq!(plan[1].source_box_position, pos(0, 0, 0));
    assert_eq!(plan[2].destination_box_position, pos(2, 0, 0));
}

/// The only cell on the way carries a stacked occupant, so it cannot be
/// traversed and no route exists.
#[test]
fn scenario_unreachable_target() {
    let mut storage = Storage::new(3, 1, 2);
    storage.add_box_unchecked(1, pos(0, 0, 0));
    storage.add_box_unchecked(2, pos(1, 0, 0));
    storage.add_box_unchecked(3, pos(1, 0, 1));
    assert!(get_shortest_box_route_can_phase(1, pos(2, 0, 0), &storage).is_none());
    assert!(get_shortest_box_route(1, pos(2, 0, 0), &storage).is_none());
}

/// A box already at its target yields the empty plan.
#[test]
fn scenario_already_at_target() {
    let mut storage = Storage::new(4, 4, 2);
    storage.add_box_unchecked(9, pos(2, 3, 0));
    let plan = get_shortest_box_route(9, pos(2, 3, 0), &storage).expect("trivial route");
    assert!(plan.is_empty());
}

/// Two demands planned against the same snapshot: each plans on its own
/// clone, so the first demand's reservations never reach the second, and the
/// snapshot itself stays untouched. Conflicts between the two plans are
/// resolved only across cycles, when a fresh snapshot is taken.
#[test]
fn scenario_independent_demands() {
    let mut storage = Storage::new(3, 3, 1);
    storage.add_box_unchecked(1, pos(0, 0, 0));
    storage.add_box_unchecked(2, pos(1, 2, 0));
    // Both raw routes cross the empty cell at (1, 0, 0): the first demand
    // reserves it on its own clone, and the second still sees it empty.
    let plan1 = get_shortest_box_route(1, pos(2, 0, 0), &storage).expect("route one");
    let plan2 = get_shortest_box_route(2, pos(1, 0, 0), &storage).expect("route two");
    assert_eq!(plan1.len(), 2);
    assert_eq!(plan2.len(), 2);
    // The snapshot is unchanged by planning.
    assert_eq!(storage.get_box_position(1), Some(pos(0, 0, 0)));
    assert_eq!(storage.get_box_position(2), Some(pos(1, 2, 0)));
    assert_eq!(storage.get_box_id_at_box_position(pos(1, 0, 0)), None);
    assert!(!storage.is_blocked(pos(1, 0, 0)));
}

/// A route that displaces fewer boxes wins over a shorter route that
/// displaces more: lexicographic cost, impeded steps first.
#[test]
fn prefers_fewer_displacements() {
    let mut storage = Storage::new(3, 2, 1);
    storage.add_box_unchecked(1, pos(0, 0, 0));
    storage.add_box_unchecked(2, pos(1, 0, 0));
    // The straight route costs (1 impeded, 2 non-impeded); the detour over
    // y = 1 costs (0 impeded, 4 non-impeded) and must win.
    let route = get_shortest_box_route_can_phase(1, pos(2, 0, 0), &storage).unwrap();
    let last = route[route.len() - 1].1;
    assert_eq!(last.impeded_moves, 0);
    assert_eq!(last.non_impeded_moves, 4);
    let plan = get_shortest_box_route(1, pos(2, 0, 0), &storage).unwrap();
    assert_eq!(plan.len(), 4);
    for m in &plan {
        assert_eq!(m.box_id, 1);
    }
}

/// An unknown box identifier has no route.
#[test]
fn unknown_box_has_no_route() {
    let storage = Storage::new(2, 2, 1);
    assert!(get_shortest_box_route(5, pos(1, 1, 0), &storage).is_none());
}

/// The raw route starts at the box's cell with zero cost and ends at the
/// target.
#[test]
fn raw_route_endpoints() {
    let mut storage = Storage::new(4, 1, 1);
    storage.add_box_unchecked(1, pos(0, 0, 0));
    let route = get_shortest_box_route_can_phase(1, pos(3, 0, 0), &storage).unwrap();
    assert_eq!(route[0].0, pos(0, 0, 0));
    assert_eq!(route[0].1.impeded_moves, 0);
    assert_eq!(route[0].1.non_impeded_moves, 0);
    assert!(!route[0].1.impeded_move);
    assert_eq!(route[route.len() - 1].0, pos(3, 0, 0));
    assert_eq!(route.len(), 4);
}
