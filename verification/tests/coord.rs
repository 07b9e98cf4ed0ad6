use chunk_grid::coord::Coord;

#[test]
fn accessors_return_the_components() {
    let c = Coord::new(-4, 11);
    assert_eq!(c.x(), -4);
    assert_eq!(c.y(), 11);
}

#[test]
fn add_is_componentwise() {
    let r = Coord::new(1, -2).add(Coord::new(30, 5));
    assert_eq!(r, Coord::new(31, 3));
}

#[test]
fn add_commutes_and_associates() {
    let a = Coord::new(3, -7);
    let b = Coord::new(-1, 4);
    let c = Coord::new(10, 2);
    assert_eq!(a.add(b), b.add(a));
    assert_eq!(a.add(b).add(c), a.add(b.add(c)));
}

#[test]
fn multiply_is_componentwise() {
    let r = Coord::new(3, -2).multiply(Coord::new(4, 5));
    assert_eq!(r, Coord::new(12, -10));
}

#[test]
fn divide_truncates_toward_zero() {
    assert_eq!(Coord::new(6, 9).divide(Coord::new(3, 3)), Coord::new(2, 3));
    assert_eq!(Coord::new(-7, 7).divide(Coord::new(3, -3)), Coord::new(-2, -2));
}

#[test]
fn divide_scalar_divides_both_components() {
    assert_eq!(Coord::new(9, -9).divide_scalar(4), Coord::new(2, -2));
}

#[test]
fn modulo_keeps_the_dividend_sign() {
    assert_eq!(Coord::new(6, 9).modulo(Coord::new(4, 4)), Coord::new(2, 1));
    assert_eq!(Coord::new(-7, 7).modulo(Coord::new(3, -3)), Coord::new(-1, 1));
}

#[test]
fn multiply_then_divide_restores() {
    let a = Coord::new(-5, 12);
    let b = Coord::new(3, -4);
    assert_eq!(a.multiply(b).divide(b), a);
}

#[test]
fn division_remainder_identity() {
    for (ax, ay, bx, by) in [(7i64, -7, 3i64, 3), (-9, 14, -4, 5), (6, 9, 4, 4)] {
        let a = Coord::new(ax as isize, ay as isize);
        let b = Coord::new(bx as isize, by as isize);
        let rebuilt = a.divide(b).multiply(b).add(a.modulo(b));
        assert_eq!(rebuilt, a);
    }
}

#[test]
fn renders_as_parenthesized_pair() {
    assert_eq!(Coord::new(6, 9).to_text(), "(6, 9)");
    assert_eq!(Coord::new(-3, 0).to_text(), "(-3, 0)");
}
