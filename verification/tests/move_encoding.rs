use boxroute::grid::BoxMove;
use boxroute::model::BoxPosition;

fn pos(x: usize, y: usize, z: usize) -> BoxPosition {
    BoxPosition { x, y, z }
}

fn mv(box_id: usize, s: BoxPosition, d: BoxPosition) -> BoxMove {
    BoxMove { box_id, source_box_position: s, destination_box_position: d }
}

/// Each of the six elementary offsets has its symbolic name.
#[test]
fn direction_names() {
    let c = pos(1, 1, 1);
    assert_eq!(mv(1, c, pos(1, 1, 2)).direction(), "up");
    assert_eq!(mv(1, c, pos(1, 1, 0)).direction(), "down");
    assert_eq!(mv(1, c, pos(1, 2, 1)).direction(), "north");
    assert_eq!(mv(1, c, pos(1, 0, 1)).direction(), "south");
    assert_eq!(mv(1, c, pos(2, 1, 1)).direction(), "east");
    assert_eq!(mv(1, c, pos(0, 1, 1)).direction(), "west");
}

/// The wire encoding carries the box identifier in decimal and the
/// direction label.
#[test]
fn json_encoding() {
    let m = mv(7, pos(1, 1, 1), pos(1, 1, 2));
    assert_eq!(m.to_json(), "{ \"box_id\": 7, \"direction\": \"up\" }");
    let m2 = mv(1230, pos(5, 5, 0), pos(6, 5, 0));
    assert_eq!(m2.to_json(), "{ \"box_id\": 1230, \"direction\": \"east\" }");
    let m3 = mv(0, pos(2, 3, 0), pos(2, 2, 0));
    assert_eq!(m3.to_json(), "{ \"box_id\": 0, \"direction\": \"south\" }");
}

/// A level-preserving move stands alone.
#[test]
fn simplify_keeps_lateral_move() {
    let m = mv(3, pos(0, 0, 0), pos(1, 0, 0));
    assert_eq!(m.simplify(), vec![m]);
}

/// A level-changing move splits into a vertical move and a lateral move
/// through the intermediate cell.
#[test]
fn simplify_splits_vertical_move() {
    let m = mv(3, pos(0, 1, 2), pos(1, 1, 0));
    let parts = m.simplify();
    assert_eq!(parts.len(), 2);
    assert_eq!(parts[0], mv(3, pos(0, 1, 2), pos(0, 1, 0)));
    assert_eq!(parts[1], mv(3, pos(0, 1, 0), pos(1, 1, 0)));
}

/// Coordinates as signed bytes.
#[test]
fn tuple_signed() {
    assert_eq!(pos(3, 4, 5).as_tuple_signed(), (3, 4, 5));
    assert_eq!(pos(0, 0, 0).as_tuple_signed(), (0, 0, 0));
}
