use hexgrid::Coordinates;
use hexgrid::Frac;

#[test]
fn neighbours() {
    let c = Coordinates::at(3, 4);
    let expected = vec![
        Coordinates::at(4, 4),
        Coordinates::at(4, 3),
        Coordinates::at(3, 3),
        Coordinates::at(2, 4),
        Coordinates::at(2, 5),
        Coordinates::at(3, 5),
    ];
    let neighbours = (0..6).flat_map(|d| c.neighbour(d)).collect::<Vec<Coordinates>>();
    assert_eq!(neighbours, expected);
    let expected = Err("Invalid direction: 6".into());
    assert_eq!(c.neighbour(6), expected);
}

#[test]
fn add() {
    let a = Coordinates::at(3, 4);
    let b = Coordinates::at(6, 7);
    let c = Coordinates::at(9, 11);
    assert_eq!(a.add(b), c);
}

#[test]
fn sub() {
    let a = Coordinates::at(3, 4);
    let b = Coordinates::at(6, 7);
    let c = Coordinates::at(-3, -3);
    assert_eq!(a.sub(b), c);
}

#[test]
fn mul() {
    let a = Coordinates::at(3, 4);
    let c = Coordinates::at(9, 12);
    assert_eq!(a.mul(3), c);
}

#[test]
fn length() {
    let a = Coordinates::at(3, -4);
    assert_eq!(a.length(), 4);
    let a = Coordinates::at(-3, -4);
    assert_eq!(a.length(), 7);
    let a = Coordinates::at(3, 4);
    assert_eq!(a.length(), 7);
    let a = Coordinates::at(-3, 4);
    assert_eq!(a.length(), 4);
}

#[test]
fn distance_to() {
    let a = Coordinates::at(3, -4);
    let b = Coordinates::at(-3, 4);
    assert_eq!(a.distance_to(b), 8);
    assert_eq!(b.distance_to(a), 8);
}

#[test]
fn round() {
    let a = Coordinates::at(4, 5);
    let b = Coordinates::round(Frac::new(44, 10), Frac::new(48, 10));
    assert_eq!(a, b);
    let b = Coordinates::round(Frac::new(37, 10), Frac::new(52, 10));
    assert_eq!(a, b);
}

#[test]
fn line_to() {
    let a = Coordinates::at(-5, 0);
    let b = Coordinates::at(1, -3);
    let expected = vec![
        Coordinates::at(-5, 0),
        Coordinates::at(-4, 0),
        Coordinates::at(-3, -1),
        Coordinates::at(-2, -1),
        Coordinates::at(-1, -2),
        Coordinates::at(0, -2),
        Coordinates::at(1, -3),
    ];
    assert_eq!(a.line_to(b), expected);
    let b = Coordinates::at(-1, 1);
    let expected = vec![
        Coordinates::at(-5, 0),
        Coordinates::at(-4, 0),
        Coordinates::at(-3, 0),
        Coordinates::at(-3, 1),
        Coordinates::at(-2, 1),
        Coordinates::at(-1, 1),
    ];
    assert_eq!(a.line_to(b), expected);
}
