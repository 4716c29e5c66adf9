use hexgrid::Coordinates;
use hexgrid::Frac;
use hexgrid::HexCell;

#[test]
fn origin_neighbours_match_direction_table() {
    let origin = Coordinates::at(0, 0);
    let table = vec![
        Coordinates::at(1, 0),
        Coordinates::at(1, -1),
        Coordinates::at(0, -1),
        Coordinates::at(-1, 0),
        Coordinates::at(-1, 1),
        Coordinates::at(0, 1),
    ];
    for d in 0..6 {
        assert_eq!(origin.neighbour(d), Ok(table[d]));
        assert_eq!(Coordinates::unit(d), Ok(table[d]));
    }
    assert_eq!(origin.neighbour(6), Err("Invalid direction: 6".to_string()));
}

#[test]
fn invalid_direction_reports_the_value() {
    assert_eq!(Coordinates::unit(6), Err("Invalid direction: 6".to_string()));
    assert_eq!(Coordinates::unit(17), Err("Invalid direction: 17".to_string()));
    assert_eq!(Coordinates::unit(600), Err("Invalid direction: 600".to_string()));
    assert_eq!(
        Coordinates::at(2, 2).neighbour(105),
        Err("Invalid direction: 105".to_string())
    );
}

#[test]
fn add_then_sub_is_identity() {
    let a = Coordinates::at(-7, 19);
    let b = Coordinates::at(23, -4);
    assert_eq!(a.add(b).sub(b), a);
}

#[test]
fn scale_by_one_is_identity() {
    let a = Coordinates::at(5, -2);
    let b = Coordinates::at(-11, 8);
    let sum = a.add(b);
    assert_eq!(sum.mul(1), sum);
}

#[test]
fn length_is_symmetric_under_negation() {
    assert_eq!(
        Coordinates::at(3, -4).length(),
        Coordinates::at(-3, 4).length()
    );
    assert_eq!(
        Coordinates::at(-3, -4).length(),
        Coordinates::at(3, 4).length()
    );
    assert_eq!(Coordinates::at(0, 0).length(), 0);
}

#[test]
fn round_is_identity_on_lattice_points() {
    let c = Coordinates::round(Frac::new(7, 1), Frac::new(-3, 1));
    assert_eq!(c, Coordinates::at(7, -3));
}

#[test]
fn round_tie_prefers_discarding_q() {
    // q = 1/2, r = 0, s = -1/2: all three rounding errors reach one half,
    // none strictly exceeds the others, so q's own rounding (away from
    // zero) stands.
    let c = Coordinates::round(Frac::new(1, 2), Frac::new(0, 1));
    assert_eq!(c, Coordinates::at(1, 0));
}

#[test]
fn round_discards_r_when_its_error_dominates() {
    // q = 2.5, r = 2.5, s = -5: q and r both err by one half, s is exact;
    // q does not strictly dominate, so r is recomputed from q and s.
    let c = Coordinates::round(Frac::new(25, 10), Frac::new(25, 10));
    assert_eq!(c, Coordinates::at(3, 2));
}

#[test]
fn line_to_self_is_a_single_tile() {
    let a = Coordinates::at(3, 4);
    assert_eq!(a.line_to(a), vec![a]);
}

#[test]
fn line_length_is_distance_plus_one() {
    let a = Coordinates::at(2, -9);
    let b = Coordinates::at(-6, 3);
    let line = a.line_to(b);
    assert_eq!(line.len() as i32, a.distance_to(b) + 1);
    assert_eq!(line[0], a);
    assert_eq!(line[line.len() - 1], b);
}

#[test]
fn hexcell_wraps_coordinates() {
    let cell = HexCell::at(Coordinates::at(3, 4));
    assert_eq!(cell.coord, Coordinates::at(3, 4));
    let east = cell.neighbour(0).unwrap();
    assert_eq!(east.coord, Coordinates::at(4, 4));
    let err = cell.neighbour(9).unwrap_err();
    assert_eq!(err, "Invalid direction: 9");
}
