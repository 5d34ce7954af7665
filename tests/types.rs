use battlesnake_doctor_strangle::types::{manhattan_distance, Coord, Direction};

#[test]
fn iter_lists_all_four_in_order() {
    assert_eq!(
        Direction::iter(),
        vec![Direction::Left, Direction::Right, Direction::Up, Direction::Down]
    );
}

#[test]
fn opposite_reverses() {
    assert_eq!(Direction::Left.opposite(), Direction::Right);
    assert_eq!(Direction::Right.opposite(), Direction::Left);
    assert_eq!(Direction::Up.opposite(), Direction::Down);
    assert_eq!(Direction::Down.opposite(), Direction::Up);
}

#[test]
fn between_picks_dominant_axis() {
    let o = Coord { x: 5, y: 5 };
    assert_eq!(Direction::between(&o, &Coord { x: 8, y: 6 }), Some(Direction::Right));
    assert_eq!(Direction::between(&o, &Coord { x: 1, y: 4 }), Some(Direction::Left));
    assert_eq!(Direction::between(&o, &Coord { x: 4, y: 9 }), Some(Direction::Up));
    assert_eq!(Direction::between(&o, &Coord { x: 6, y: 2 }), Some(Direction::Down));
}

#[test]
fn between_prefers_vertical_on_diagonal() {
    let o = Coord { x: 0, y: 0 };
    assert_eq!(Direction::between(&o, &Coord { x: 2, y: 2 }), Some(Direction::Up));
    assert_eq!(Direction::between(&o, &Coord { x: -3, y: -3 }), Some(Direction::Down));
}

#[test]
fn between_same_cell_has_no_direction() {
    let o = Coord { x: 3, y: 7 };
    assert_eq!(Direction::between(&o, &o), None);
}

#[test]
fn neighbour_moves_one_cell() {
    let c = Coord { x: 4, y: 4 };
    assert_eq!(c.neighbour(Direction::Left), Coord { x: 3, y: 4 });
    assert_eq!(c.neighbour(Direction::Right), Coord { x: 5, y: 4 });
    assert_eq!(c.neighbour(Direction::Up), Coord { x: 4, y: 5 });
    assert_eq!(c.neighbour(Direction::Down), Coord { x: 4, y: 3 });
}

#[test]
fn manhattan_distance_sums_axes() {
    assert_eq!(manhattan_distance(Coord { x: 1, y: 2 }, Coord { x: 4, y: -2 }), 7);
    assert_eq!(manhattan_distance(Coord { x: 0, y: 0 }, Coord { x: 0, y: 0 }), 0);
}
